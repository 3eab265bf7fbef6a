//! The Kafka wire format as mathematics: a schema language, a value tree,
//! and what parsing and encoding mean for them.
use vstd::prelude::*;
use vstd::utf8::valid_utf8;

verus! {

/// A decoded protocol value, independent of the Rust type that holds it.
pub enum Value {
    Int(int),
    Bool(bool),
    Bytes(Seq<u8>),
    Null,
    List(Seq<Value>),
    Fields(Seq<Value>),
}

/// The shape of a field on the wire.
pub enum Schema {
    I8,
    I16,
    I32,
    I64,
    Bool,
    /// `i16` length, then UTF-8 bytes; a negative length is an error.
    Str,
    /// `i16` length, then UTF-8 bytes; a negative length is null.
    NullableStr,
    /// `i32` length, then bytes; a negative length is an error.
    Bytes,
    /// `i32` length, then bytes; a negative length is null.
    NullableBytes,
    /// An `i16` that must be one of the known error codes.
    ErrorCode,
    /// `i32` count, then that many elements; a negative count is an empty list.
    Array(Box<Schema>),
    /// Elements until one fails before consuming input.
    Many(Box<Schema>),
    /// One element if it does not fail before consuming input, else null.
    Optional(Box<Schema>),
    /// Fields one after the other.
    Struct(Seq<Schema>),
    /// A zigzag LEB128 variable-length `i32`.
    VarInt,
    /// Variable-length count of bytes, then the bytes; a negative count is an error.
    VarBytes,
    /// As `VarBytes`, and the bytes must be UTF-8.
    VarStr,
    /// Variable-length count of elements, then the elements; a negative count is an empty list.
    VarArray(Box<Schema>),
    /// A record batch inside nullable bytes: the bytes hold the given record
    /// set, whose magic byte must be 2 and whose checksum must match.
    RecordBatch(Box<Schema>),
    /// A record batch inside nullable bytes, with its records left as they
    /// are (they may be compressed): the fixed fields, the record count and
    /// the bytes after it. The magic byte must be 2 and the checksum must match.
    RawBatch,
}

/// Why a record set read from the wire is not a valid batch.
#[derive(Clone, Copy, Debug, PartialEq, Eq, Structural)]
pub enum BatchError {
    /// The magic byte is not 2: a batch format this library does not read.
    Version,
    /// The checksum does not match the bytes it covers.
    Corrupted,
}

/// Outcome of parsing at a position of an input.
pub enum Parsed {
    /// The value and the position just after it.
    Done(Value, int),
    /// A failure; `true` when input had been consumed before it (a committed error).
    Failed(bool),
}

/// `256` to the power `w`.
pub open spec fn pow256(w: nat) -> nat
    decreases w,
{
    if w == 0 {
        1
    } else {
        256 * pow256((w - 1) as nat)
    }
}

/// Big-endian unsigned value of the `w` bytes of `s` starting at `pos`.
pub open spec fn be_at(s: Seq<u8>, pos: int, w: nat) -> nat
    decreases w,
{
    if w == 0 {
        0
    } else {
        be_at(s, pos, (w - 1) as nat) * 256 + s[pos + w - 1] as nat
    }
}

/// The `w` big-endian bytes of `u` (modulo `256^w`).
pub open spec fn be_bytes(u: nat, w: nat) -> Seq<u8>
    decreases w,
{
    if w == 0 {
        Seq::empty()
    } else {
        be_bytes(u / 256, (w - 1) as nat).push((u % 256) as u8)
    }
}

/// Two's complement reading of an unsigned `w`-byte value.
pub open spec fn to_signed(u: nat, w: nat) -> int {
    if u >= pow256(w) / 2 {
        u - pow256(w)
    } else {
        u as int
    }
}

/// Two's complement bits of a signed value, as an unsigned `w`-byte value.
pub open spec fn to_unsigned(v: int, w: nat) -> nat {
    if v < 0 {
        (v + pow256(w)) as nat
    } else {
        v as nat
    }
}

/// Big-endian two's complement encoding of `v` in `w` bytes.
pub open spec fn int_bytes(v: int, w: nat) -> Seq<u8> {
    be_bytes(to_unsigned(v, w), w)
}

/// `v` fits a signed integer of `w` bytes.
pub open spec fn fits_signed(v: int, w: nat) -> bool {
    -(pow256(w) / 2) <= v < pow256(w) / 2
}

/// Reads a signed big-endian integer of `w` bytes at `pos`; fails without
/// consuming when fewer than `w` bytes remain.
pub open spec fn parse_int(s: Seq<u8>, pos: int, w: nat) -> Parsed {
    if 0 <= pos && pos + w <= s.len() {
        Parsed::Done(Value::Int(to_signed(be_at(s, pos, w), w)), pos + w)
    } else {
        Parsed::Failed(false)
    }
}

/// The error codes of the protocol: -1 through 82.
pub open spec fn is_error_code(c: int) -> bool {
    -1 <= c <= 82
}

/// A length-prefixed byte string whose prefix has `w` bytes. A negative
/// length is null when `nullable`, an error otherwise; `utf8` asks the bytes
/// to be valid UTF-8.
pub open spec fn parse_delimited(s: Seq<u8>, pos: int, w: nat, nullable: bool, utf8: bool) -> Parsed {
    match parse_int(s, pos, w) {
        Parsed::Done(Value::Int(n), p) => {
            if n < 0 {
                if nullable {
                    Parsed::Done(Value::Null, p)
                } else {
                    Parsed::Failed(true)
                }
            } else if p + n > s.len() {
                Parsed::Failed(true)
            } else if utf8 && !valid_utf8(s.subrange(p, p + n)) {
                Parsed::Failed(true)
            } else {
                Parsed::Done(Value::Bytes(s.subrange(p, p + n)), p + n)
            }
        },
        _ => Parsed::Failed(false),
    }
}

/// What parsing `sch` at `pos` of `s` gives.
pub open spec fn parse_value(sch: Schema, s: Seq<u8>, pos: int) -> Parsed
    decreases sch, s.len() - pos, 1int, 0int,
{
    if pos < 0 || pos > s.len() {
        Parsed::Failed(false)
    } else {
        match sch {
            Schema::I8 => parse_int(s, pos, 1),
            Schema::I16 => parse_int(s, pos, 2),
            Schema::I32 => parse_int(s, pos, 4),
            Schema::I64 => parse_int(s, pos, 8),
            Schema::Bool => {
                if pos + 1 <= s.len() {
                    Parsed::Done(Value::Bool(s[pos] != 0), pos + 1)
                } else {
                    Parsed::Failed(false)
                }
            },
            Schema::Str => parse_delimited(s, pos, 2, false, true),
            Schema::NullableStr => parse_delimited(s, pos, 2, true, true),
            Schema::Bytes => parse_delimited(s, pos, 4, false, false),
            Schema::NullableBytes => parse_delimited(s, pos, 4, true, false),
            Schema::ErrorCode => match parse_int(s, pos, 2) {
                Parsed::Done(Value::Int(c), p) => if is_error_code(c) {
                    Parsed::Done(Value::Int(c), p)
                } else {
                    Parsed::Failed(true)
                },
                _ => Parsed::Failed(false),
            },
            Schema::Array(e) => match parse_int(s, pos, 4) {
                Parsed::Done(Value::Int(n), p) => if n < 0 {
                    Parsed::Done(Value::List(Seq::empty()), p)
                } else {
                    match parse_count(*e, n as nat, s, p) {
                        Parsed::Done(v, q) => Parsed::Done(v, q),
                        _ => Parsed::Failed(true),
                    }
                },
                _ => Parsed::Failed(false),
            },
            Schema::Many(e) => parse_many(*e, s, pos),
            Schema::Optional(e) => match parse_value(*e, s, pos) {
                Parsed::Done(v, p) => Parsed::Done(v, p),
                Parsed::Failed(c) => if c {
                    Parsed::Failed(true)
                } else {
                    Parsed::Done(Value::Null, pos)
                },
            },
            Schema::Struct(fs) => parse_fields(fs, 0, s, pos),
            Schema::VarInt => parse_varint(s, pos),
            Schema::VarBytes => parse_var_delimited(s, pos, false),
            Schema::VarStr => parse_var_delimited(s, pos, true),
            Schema::VarArray(e) => match parse_varint(s, pos) {
                Parsed::Done(Value::Int(n), p) => if n < 0 {
                    Parsed::Done(Value::List(Seq::empty()), p)
                } else {
                    match parse_count(*e, n as nat, s, p) {
                        Parsed::Done(v, q) => Parsed::Done(v, q),
                        _ => Parsed::Failed(true),
                    }
                },
                _ => Parsed::Failed(true),
            },
            Schema::RecordBatch(rs) => match parse_delimited(s, pos, 4, true, false) {
                Parsed::Done(Value::Bytes(b), p) => if b.len() == 0 {
                    Parsed::Done(Value::Null, p)
                } else {
                    match parse_value(*rs, b, 0) {
                        Parsed::Done(v, _) => match verify_batch(v, b) {
                            Some(bv) => Parsed::Done(bv, p),
                            None => Parsed::Failed(true),
                        },
                        Parsed::Failed(_) => Parsed::Failed(true),
                    }
                },
                Parsed::Done(_, p) => Parsed::Done(Value::Null, p),
                Parsed::Failed(c) => Parsed::Failed(c),
            },
            Schema::RawBatch => parse_raw_batch(s, pos),
        }
    }
}

/// Reads a batch whose records are kept as they are, held in nullable
/// bytes: null or empty bytes are null; other bytes must hold such a batch,
/// else the parse fails, committed.
pub open spec fn parse_raw_batch(s: Seq<u8>, pos: int) -> Parsed {
    match parse_delimited(s, pos, 4, true, false) {
        Parsed::Done(Value::Bytes(b), p) => if b.len() == 0 {
            Parsed::Done(Value::Null, p)
        } else {
            match raw_batch_value(b) {
                Some(v) => Parsed::Done(v, p),
                None => Parsed::Failed(true),
            }
        },
        Parsed::Done(_, p) => Parsed::Done(Value::Null, p),
        Parsed::Failed(c) => Parsed::Failed(c),
    }
}

/// The sum of the low seven bits of each byte, the first byte least significant.
pub open spec fn leb_sum(s: Seq<u8>) -> nat
    decreases s.len(),
{
    if s.len() == 0 {
        0
    } else {
        (s[0] % 128) as nat + 128 * leb_sum(s.drop_first())
    }
}

/// How many bytes a variable-length integer takes at the start of `s`: up to
/// and with the first byte whose high bit is clear, or all of `s`.
pub open spec fn varint_len(s: Seq<u8>) -> nat
    decreases s.len(),
{
    if s.len() == 0 {
        0
    } else if s[0] < 128 {
        1
    } else {
        1 + varint_len(s.drop_first())
    }
}

/// The signed number that a zigzag-encoded number stands for.
pub open spec fn zigzag_decode(u: nat) -> int {
    if u % 2 == 0 {
        (u / 2) as int
    } else {
        -((u + 1) / 2)
    }
}

/// The zigzag encoding of a signed number: 0, -1, 1, -2, ... as 0, 1, 2, 3, ...
pub open spec fn zigzag_encode(v: int) -> nat {
    if v >= 0 {
        (2 * v) as nat
    } else {
        (-2 * v - 1) as nat
    }
}

/// The `i32` with the same low 32 bits as `z`.
pub open spec fn wrap_i32(z: int) -> int {
    let m = z % 4294967296;
    if m >= 2147483648 {
        m - 4294967296
    } else {
        m
    }
}

/// The `i32` that the variable-length integer at the start of `s` stands for,
/// its 7-bit groups accumulated in 64 bits.
pub open spec fn varint_decode(s: Seq<u8>) -> int {
    wrap_i32(zigzag_decode(leb_sum(s.take(varint_len(s) as int)) % 18446744073709551616))
}

/// The LEB128 bytes of `u`: 7 bits per byte, least significant first, the
/// high bit set on every byte but the last.
pub open spec fn leb_bytes(u: nat) -> Seq<u8>
    decreases u,
{
    if u < 128 {
        seq![u as u8]
    } else {
        seq![(u % 128 + 128) as u8] + leb_bytes(u / 128)
    }
}

/// The variable-length (zigzag, LEB128) encoding of `v`.
pub open spec fn varint_bytes(v: int) -> Seq<u8> {
    leb_bytes(zigzag_encode(v))
}

/// At most the next ten bytes: the most a variable-length integer is read from.
pub open spec fn varint_window(s: Seq<u8>, pos: int) -> Seq<u8> {
    if pos + 10 <= s.len() {
        s.subrange(pos, pos + 10)
    } else {
        s.subrange(pos, s.len() as int)
    }
}

/// A variable-length integer never fails: it reads the bytes it needs, or
/// what is left, and an empty input reads as 0.
pub open spec fn parse_varint(s: Seq<u8>, pos: int) -> Parsed {
    if 0 <= pos <= s.len() {
        let w = varint_window(s, pos);
        Parsed::Done(Value::Int(varint_decode(w)), pos + varint_len(w))
    } else {
        Parsed::Failed(false)
    }
}

/// A variable-length count of bytes, then the bytes; `utf8` asks them to
/// be valid UTF-8. A negative count is an error.
pub open spec fn parse_var_delimited(s: Seq<u8>, pos: int, utf8: bool) -> Parsed {
    match parse_varint(s, pos) {
        Parsed::Done(Value::Int(n), p) => {
            if n < 0 || p + n > s.len() {
                Parsed::Failed(true)
            } else if utf8 && !valid_utf8(s.subrange(p, p + n)) {
                Parsed::Failed(true)
            } else {
                Parsed::Done(Value::Bytes(s.subrange(p, p + n)), p + n)
            }
        },
        _ => Parsed::Failed(false),
    }
}

/// One bit of the reflected CRC-32C division: shift right, and add the
/// Castagnoli polynomial (0x82F63B78, reflected) when the bit shifted out
/// is set.
pub open spec fn crc_shift(c: u32) -> u32 {
    if c & 1 == 1 {
        (c >> 1u32) ^ 0x82f6_3b78u32
    } else {
        c >> 1u32
    }
}

/// `crc_shift` applied `k` times.
pub open spec fn crc_shifts(c: u32, k: nat) -> u32
    decreases k,
{
    if k == 0 {
        c
    } else {
        crc_shifts(crc_shift(c), (k - 1) as nat)
    }
}

/// The CRC register after the bytes of `data`, byte by byte from `c`: the
/// low byte of the register with the next byte, divided eight bits, added
/// to the rest of the register.
pub open spec fn crc_register(c: u32, data: Seq<u8>) -> u32
    decreases data.len(),
{
    if data.len() == 0 {
        c
    } else {
        crc_register(crc_shifts((c & 0xffu32) ^ (data[0] as u32), 8) ^ (c >> 8u32), data.drop_first())
    }
}

/// CRC-32C (Castagnoli) checksum of the bytes: the register starts with
/// every bit set, and the result is its complement. Proofs here need only
/// that it is a function of the bytes, so its definition stays hidden.
#[verifier::opaque]
pub open spec fn crc32c(data: Seq<u8>) -> u32 {
    !crc_register(!0u32, data)
}

/// Where the checksummed part of a record batch starts: after the base
/// offset, batch length, leader epoch, magic byte and checksum.
pub open spec fn crc_start() -> int {
    21
}

/// Where the record count of a record batch starts; its records' bytes
/// start four bytes later.
pub open spec fn count_start() -> int {
    57
}

/// The integer of a value (zero for any other value).
pub open spec fn int_of(v: Value) -> int {
    match v {
        Value::Int(i) => i,
        _ => 0,
    }
}

/// The bytes of a value (none for any other value).
pub open spec fn bytes_of(v: Value) -> Seq<u8> {
    match v {
        Value::Bytes(b) => b,
        _ => Seq::empty(),
    }
}

/// The signed big-endian integer of `w` bytes at `pos` of `b`.
pub open spec fn int_at(b: Seq<u8>, pos: int, w: nat) -> Value {
    Value::Int(to_signed(be_at(b, pos, w), w))
}

/// The batch held in the bytes `b`, its records left as they are: base
/// offset, leader epoch, attributes, last offset delta, first and max
/// timestamps, producer id and epoch, base sequence, then the record count
/// with the bytes after it. None when the bytes are shorter than the fixed
/// part, when the magic byte is not 2, or when the checksum does not match
/// the bytes after it.
pub open spec fn raw_batch_value(b: Seq<u8>) -> Option<Value> {
    if b.len() < count_start() + 4 {
        None
    } else if b[16] != 2 {
        None
    } else if to_signed(be_at(b, 17, 4), 4) != to_signed(crc32c(b.subrange(crc_start(), b.len() as int)) as nat, 4) {
        None
    } else {
        Some(
            Value::Fields(
                seq![int_at(b, 0, 8), int_at(b, 12, 4), int_at(b, 21, 2), int_at(b, 23, 4), int_at(b, 27, 8), int_at(b, 35, 8), int_at(b, 43, 8), int_at(b, 51, 2), int_at(b, 53, 4), Value::Fields(seq![int_at(b, 57, 4), Value::Bytes(b.subrange(61, b.len() as int))])],
            ),
        )
    }
}

/// The checksummed part of a batch `f` whose records are kept as they are:
/// the fields after the checksum, the record count and the records' bytes.
pub open spec fn raw_tail(f: Seq<Value>) -> Seq<u8> {
    int_bytes(int_of(f[2]), 2) + int_bytes(int_of(f[3]), 4) + int_bytes(int_of(f[4]), 8) + int_bytes(int_of(f[5]), 8)
        + int_bytes(int_of(f[6]), 8) + int_bytes(int_of(f[7]), 2) + int_bytes(int_of(f[8]), 4)
        + int_bytes(int_of(fields_of(f[9])[0]), 4) + bytes_of(fields_of(f[9])[1])
}

/// The bytes of a batch `f` whose records are kept as they are: base
/// offset, batch length (the bytes after it), leader epoch, magic byte 2,
/// the CRC-32C of the part after the checksum, then that part.
pub open spec fn raw_body(f: Seq<Value>) -> Seq<u8> {
    let tail = raw_tail(f);
    int_bytes(int_of(f[0]), 8) + int_bytes((9 + tail.len()) as int, 4) + int_bytes(int_of(f[1]), 4) + int_bytes(2, 1)
        + int_bytes(to_signed(crc32c(tail) as nat, 4), 4) + tail
}

/// The bytes of an optional batch whose records are kept as they are: the
/// length of the batch, then the batch; a length of `-1` for none.
pub open spec fn encode_raw_batch(v: Value) -> Seq<u8> {
    match v {
        Value::Null => int_bytes(-1, 4),
        Value::Fields(f) => int_bytes(raw_body(f).len() as int, 4) + raw_body(f),
        _ => Seq::empty(),
    }
}

/// `f` is a batch with its records as they are that can be written: ten
/// fields, each integer fitting its width, and the whole short enough for
/// its `i32` length.
pub open spec fn wf_raw(f: Seq<Value>) -> bool {
    &&& f.len() == 10
    &&& f[0] matches Value::Int(i) && fits_signed(i, 8)
    &&& f[1] matches Value::Int(i) && fits_signed(i, 4)
    &&& f[2] matches Value::Int(i) && fits_signed(i, 2)
    &&& f[3] matches Value::Int(i) && fits_signed(i, 4)
    &&& f[4] matches Value::Int(i) && fits_signed(i, 8)
    &&& f[5] matches Value::Int(i) && fits_signed(i, 8)
    &&& f[6] matches Value::Int(i) && fits_signed(i, 8)
    &&& f[7] matches Value::Int(i) && fits_signed(i, 2)
    &&& f[8] matches Value::Int(i) && fits_signed(i, 4)
    &&& f[9] matches Value::Fields(r) && r.len() == 2
    &&& fields_of(f[9])[0] matches Value::Int(c) && fits_signed(c, 4)
    &&& fields_of(f[9])[1] matches Value::Bytes(b) && 61 + b.len() <= i32::MAX
}

/// The fields of a header of a stored record: key and value.
pub open spec fn header_fields() -> Seq<Schema> {
    seq![Schema::VarStr, Schema::VarBytes]
}

/// The fields of a stored record: length, attributes, timestamp and offset
/// deltas, key, value and headers.
pub open spec fn stored_record_fields() -> Seq<Schema> {
    seq![Schema::VarInt, Schema::I8, Schema::VarInt, Schema::VarInt, Schema::VarBytes, Schema::VarBytes, Schema::VarArray(Box::new(Schema::Struct(header_fields())))]
}

/// The fields of a record set: base offset, batch length, leader epoch,
/// magic byte, checksum, attributes, last offset delta, first and max
/// timestamps, producer id and epoch, base sequence and records.
pub open spec fn record_set_fields() -> Seq<Schema> {
    seq![Schema::I64, Schema::I32, Schema::I32, Schema::I8, Schema::I32, Schema::I16, Schema::I32, Schema::I64, Schema::I64, Schema::I64, Schema::I16, Schema::I32, Schema::Array(Box::new(Schema::Struct(stored_record_fields())))]
}

/// Drops the first field (the record length, computed on write).
pub open spec fn record_view(r: Value) -> Value {
    match r {
        Value::Fields(xs) => Value::Fields(xs.drop_first()),
        _ => r,
    }
}

/// Checks a parsed record set `v` read from the bytes `b`: its magic byte
/// must be 2 and its checksum must match the bytes after it. Gives the batch
/// without the computed fields (batch length, magic, checksum, record
/// lengths); `batch_error` says why when there is none.
pub open spec fn verify_batch(v: Value, b: Seq<u8>) -> Option<Value> {
    match v {
        Value::Fields(fs) => {
            if fs.len() != 13 || b.len() < crc_start() {
                None
            } else if fs[3] != Value::Int(2) {
                None
            } else if fs[4] != Value::Int(to_signed(crc32c(b.subrange(crc_start(), b.len() as int)) as nat, 4)) {
                None
            } else {
                match fs[12] {
                    Value::List(rs) => Some(
                        Value::Fields(
                            seq![fs[0], fs[2], fs[5], fs[6], fs[7], fs[8], fs[9], fs[10], fs[11], Value::List(rs.map_values(|r: Value| record_view(r)))],
                        ),
                    ),
                    _ => None,
                }
            }
        },
        _ => None,
    }
}

/// Why checking the record set `v` read from `b` fails: the magic byte is
/// checked first (a version error unless it is 2), then the checksum.
pub open spec fn batch_error(v: Value, b: Seq<u8>) -> BatchError {
    match v {
        Value::Fields(fs) => if fs.len() == 13 && fs[3] != Value::Int(2) {
            BatchError::Version
        } else {
            BatchError::Corrupted
        },
        _ => BatchError::Corrupted,
    }
}

/// Parses exactly `n` elements; the result is a `List`.
pub open spec fn parse_count(e: Schema, n: nat, s: Seq<u8>, pos: int) -> Parsed
    decreases e, s.len() - pos, 2int, n,
{
    if pos < 0 || pos > s.len() {
        Parsed::Failed(false)
    } else if n == 0 {
        Parsed::Done(Value::List(Seq::empty()), pos)
    } else {
        match parse_value(e, s, pos) {
            Parsed::Done(v, p) => if p < pos || p > s.len() {
                Parsed::Failed(true)
            } else {
                match parse_count(e, (n - 1) as nat, s, p) {
                    Parsed::Done(Value::List(vs), q) => Parsed::Done(Value::List(seq![v] + vs), q),
                    _ => Parsed::Failed(true),
                }
            },
            Parsed::Failed(c) => Parsed::Failed(c),
        }
    }
}

/// Parses elements while they succeed; stops at an element that fails
/// without consuming input, and fails at one that fails after consuming.
pub open spec fn parse_many(e: Schema, s: Seq<u8>, pos: int) -> Parsed
    decreases e, s.len() - pos, 2int, 0int,
{
    if pos < 0 || pos > s.len() {
        Parsed::Failed(false)
    } else {
        match parse_value(e, s, pos) {
            Parsed::Done(v, p) => if p <= pos || p > s.len() {
                Parsed::Done(Value::List(Seq::empty()), pos)
            } else {
                match parse_many(e, s, p) {
                    Parsed::Done(Value::List(vs), q) => Parsed::Done(Value::List(seq![v] + vs), q),
                    _ => Parsed::Failed(true),
                }
            },
            Parsed::Failed(c) => if c {
                Parsed::Failed(true)
            } else {
                Parsed::Done(Value::List(Seq::empty()), pos)
            },
        }
    }
}

/// Parses the fields `fs[i..]` one after the other; the result is a `Fields`.
pub open spec fn parse_fields(fs: Seq<Schema>, i: int, s: Seq<u8>, pos: int) -> Parsed
    decreases fs, s.len() - pos, 1int, fs.len() - i,
{
    if pos < 0 || pos > s.len() || i < 0 {
        Parsed::Failed(false)
    } else if i >= fs.len() {
        Parsed::Done(Value::Fields(Seq::empty()), pos)
    } else {
        match parse_value(fs[i], s, pos) {
            Parsed::Done(v, p) => if p < pos || p > s.len() {
                Parsed::Failed(true)
            } else {
                match parse_fields(fs, i + 1, s, p) {
                    Parsed::Done(Value::Fields(vs), q) => Parsed::Done(Value::Fields(seq![v] + vs), q),
                    Parsed::Failed(c) => Parsed::Failed(c || p > pos),
                    _ => Parsed::Failed(true),
                }
            },
            Parsed::Failed(c) => Parsed::Failed(c),
        }
    }
}

/// The bytes that encode `v` as `sch`.
pub open spec fn encode_value(sch: Schema, v: Value) -> Seq<u8>
    decreases sch, 0int, 0int,
{
    match sch {
        Schema::I8 => match v { Value::Int(i) => int_bytes(i, 1), _ => Seq::empty() },
        Schema::I16 => match v { Value::Int(i) => int_bytes(i, 2), _ => Seq::empty() },
        Schema::I32 => match v { Value::Int(i) => int_bytes(i, 4), _ => Seq::empty() },
        Schema::I64 => match v { Value::Int(i) => int_bytes(i, 8), _ => Seq::empty() },
        Schema::ErrorCode => match v { Value::Int(i) => int_bytes(i, 2), _ => Seq::empty() },
        Schema::Bool => match v {
            Value::Bool(b) => seq![if b { 1u8 } else { 0u8 }],
            _ => Seq::empty(),
        },
        Schema::Str => match v {
            Value::Bytes(b) => int_bytes(b.len() as int, 2) + b,
            _ => Seq::empty(),
        },
        Schema::NullableStr => match v {
            Value::Bytes(b) => int_bytes(b.len() as int, 2) + b,
            Value::Null => int_bytes(-1, 2),
            _ => Seq::empty(),
        },
        Schema::Bytes => match v {
            Value::Bytes(b) => int_bytes(b.len() as int, 4) + b,
            _ => Seq::empty(),
        },
        Schema::NullableBytes => match v {
            Value::Bytes(b) => int_bytes(b.len() as int, 4) + b,
            Value::Null => int_bytes(-1, 4),
            _ => Seq::empty(),
        },
        Schema::Array(e) => match v {
            Value::List(vs) => int_bytes(vs.len() as int, 4) + encode_list(*e, vs),
            _ => Seq::empty(),
        },
        Schema::Many(e) => match v {
            Value::List(vs) => encode_list(*e, vs),
            _ => Seq::empty(),
        },
        Schema::Optional(e) => match v {
            Value::Null => Seq::empty(),
            _ => encode_value(*e, v),
        },
        Schema::Struct(fs) => match v {
            Value::Fields(vs) => encode_fields(fs, 0, vs),
            _ => Seq::empty(),
        },
        Schema::VarInt => match v { Value::Int(i) => varint_bytes(i), _ => Seq::empty() },
        Schema::VarBytes => match v {
            Value::Bytes(b) => varint_bytes(b.len() as int) + b,
            _ => Seq::empty(),
        },
        Schema::VarStr => match v {
            Value::Bytes(b) => varint_bytes(b.len() as int) + b,
            _ => Seq::empty(),
        },
        Schema::VarArray(e) => match v {
            Value::List(vs) => varint_bytes(vs.len() as int) + encode_list(*e, vs),
            _ => Seq::empty(),
        },
        Schema::RecordBatch(rs) => match v {
            Value::Null => int_bytes(-1, 4),
            _ => match *rs {
                Schema::Struct(fs) => {
                    let body = encode_fields(fs, 0, fields_of(written_set(fs, v)));
                    int_bytes(body.len() as int, 4) + body
                },
                _ => Seq::empty(),
            },
        },
        Schema::RawBatch => encode_raw_batch(v),
    }
}

/// The field values of a struct value (none for any other value).
pub open spec fn fields_of(v: Value) -> Seq<Value> {
    match v {
        Value::Fields(f) => f,
        _ => Seq::empty(),
    }
}

/// The record set (with fields `fs`) that stores the batch `v`: `v`'s base
/// offset, leader epoch, attributes, last offset delta, timestamps, producer
/// id and epoch, base sequence and records, with the given batch length and
/// checksum, magic byte 2, and every record with its length in front.
pub open spec fn stored_set(fs: Seq<Schema>, v: Value, batch_length: int, crc: int) -> Value
    decreases fs, 3int, 0int,
{
    match v {
        Value::Fields(f) => if f.len() == 10 && fs.len() == 13 {
            match (fs[12], f[9]) {
                (Schema::Array(e), Value::List(rs)) => match *e {
                    Schema::Struct(rfs) => Value::Fields(
                        seq![f[0], Value::Int(batch_length), f[1], Value::Int(2), Value::Int(crc), f[2], f[3], f[4], f[5], f[6], f[7], f[8], Value::List(full_records(rfs, rs))],
                    ),
                    _ => Value::Null,
                },
                _ => Value::Null,
            }
        } else {
            Value::Null
        },
        _ => Value::Null,
    }
}

/// The checksummed part of the record set (fields `fs`) that stores the
/// batch `v`: its fields from the attributes on.
pub open spec fn batch_tail(fs: Seq<Schema>, v: Value) -> Seq<u8>
    decreases fs, 5int, 0int,
{
    encode_fields(fs, 5, fields_of(stored_set(fs, v, 0, 0)))
}

/// The record set (fields `fs`) that stores the batch `v` as it is written:
/// the batch length counts the bytes after it, and the checksum is the
/// CRC-32C of the checksummed part.
pub open spec fn written_set(fs: Seq<Schema>, v: Value) -> Value
    decreases fs, 6int, 0int,
{
    let tail = batch_tail(fs, v);
    stored_set(fs, v, (9 + tail.len()) as int, to_signed(crc32c(tail) as nat, 4))
}

/// The records `rs` each with its length in front (record fields `rfs`).
pub open spec fn full_records(rfs: Seq<Schema>, rs: Seq<Value>) -> Seq<Value>
    decreases rfs, 2int, rs.len(),
{
    if rs.len() == 0 {
        Seq::empty()
    } else {
        seq![full_record_of(rfs, rs[0])] + full_records(rfs, rs.drop_first())
    }
}

/// The record `r` with the length of its body in front.
pub open spec fn full_record_of(rfs: Seq<Schema>, r: Value) -> Value
    decreases rfs, 1int, 1int,
{
    match r {
        Value::Fields(xs) => Value::Fields(seq![Value::Int(body_of(rfs, r).len() as int)] + xs),
        _ => r,
    }
}

/// The encodings of the elements `vs`, one after the other.
pub open spec fn encode_list(e: Schema, vs: Seq<Value>) -> Seq<u8>
    decreases e, 1int, vs.len(),
{
    if vs.len() == 0 {
        Seq::empty()
    } else {
        encode_value(e, vs[0]) + encode_list(e, vs.drop_first())
    }
}

/// The encodings of the fields `fs[i..]` with the values `vs[i..]`.
pub open spec fn encode_fields(fs: Seq<Schema>, i: int, vs: Seq<Value>) -> Seq<u8>
    decreases fs, 0int, fs.len() - i,
{
    if i < 0 || i >= fs.len() || i >= vs.len() {
        Seq::empty()
    } else {
        encode_value(fs[i], vs[i]) + encode_fields(fs, i + 1, vs)
    }
}

/// The number of bytes that `encode_len` reports for `v` as `sch`: the
/// length of its encoding, except that a record in a record batch is counted
/// without its own length prefix.
pub open spec fn reported_len(sch: Schema, v: Value) -> nat
    decreases sch, 0int, 0int,
{
    match sch {
        Schema::Array(e) => match v {
            Value::List(vs) => 4 + reported_list(*e, vs),
            _ => 0,
        },
        Schema::VarArray(e) => match v {
            Value::List(vs) => varint_bytes(vs.len() as int).len() + reported_list(*e, vs),
            _ => 0,
        },
        Schema::Many(e) => match v {
            Value::List(vs) => reported_list(*e, vs),
            _ => 0,
        },
        Schema::Optional(e) => match v {
            Value::Null => 0,
            _ => reported_len(*e, v),
        },
        Schema::Struct(fs) => match v {
            Value::Fields(vs) => reported_fields(fs, 0, vs),
            _ => 0,
        },
        Schema::RecordBatch(rs) => match v {
            Value::Fields(f) => match *rs {
                Schema::Struct(fs) => if fs.len() == 13 && f.len() == 10 {
                    match (fs[12], f[9]) {
                        (Schema::Array(e), Value::List(records)) => match *e {
                            Schema::Struct(rfs) => 65 + bodies_len(rfs, records),
                            _ => 0,
                        },
                        _ => 0,
                    }
                } else {
                    0
                },
                _ => 0,
            },
            _ => 4,
        },
        _ => encode_value(sch, v).len(),
    }
}

/// The lengths that `encode_len` reports for the elements, summed.
pub open spec fn reported_list(e: Schema, vs: Seq<Value>) -> nat
    decreases e, 1int, vs.len(),
{
    if vs.len() == 0 {
        0
    } else {
        reported_len(e, vs[0]) + reported_list(e, vs.drop_first())
    }
}

/// The lengths that `encode_len` reports for the fields from `i` on, summed.
pub open spec fn reported_fields(fs: Seq<Schema>, i: int, vs: Seq<Value>) -> nat
    decreases fs, 0int, fs.len() - i,
{
    if i < 0 || i >= fs.len() || i >= vs.len() {
        0
    } else {
        reported_len(fs[i], vs[i]) + reported_fields(fs, i + 1, vs)
    }
}

/// The bytes that follow the lengths of the records `rs`, one record after
/// the other: the record fields `rfs` without the first (the length).
pub open spec fn bodies_len(rfs: Seq<Schema>, rs: Seq<Value>) -> nat
    decreases rfs, 2int, rs.len(),
{
    if rs.len() == 0 {
        0
    } else {
        body_of(rfs, rs[0]).len() + bodies_len(rfs, rs.drop_first())
    }
}

/// The bytes of a record after its length: the fields `rfs[1..]` with the values of `r`.
pub open spec fn body_of(rfs: Seq<Schema>, r: Value) -> Seq<u8>
    decreases rfs, 1int, 0int,
{
    match r {
        Value::Fields(xs) => encode_fields(rfs, 1, seq![Value::Int(0)] + xs),
        _ => Seq::empty(),
    }
}

/// The schema holds no record batch.
pub open spec fn no_batch(sch: Schema) -> bool
    decreases sch,
{
    match sch {
        Schema::Array(e) => no_batch(*e),
        Schema::VarArray(e) => no_batch(*e),
        Schema::Many(e) => no_batch(*e),
        Schema::Optional(e) => no_batch(*e),
        Schema::Struct(fs) => forall|k: int| 0 <= k < fs.len() ==> no_batch(#[trigger] fs[k]),
        Schema::RecordBatch(_) => false,
        _ => true,
    }
}

/// Without record batches, the reported length is the length of the encoding.
pub proof fn lemma_reported_len(sch: Schema, v: Value)
    requires
        no_batch(sch),
    ensures
        reported_len(sch, v) == encode_value(sch, v).len(),
    decreases sch, 0int, 0int,
{
    match sch {
        Schema::Array(e) => {
            if let Value::List(vs) = v {
                lemma_reported_list(*e, vs);
                crate::wire::lemma_int_bytes_len(vs.len() as int, 4);
            }
        },
        Schema::VarArray(e) => {
            if let Value::List(vs) = v {
                lemma_reported_list(*e, vs);
            }
        },
        Schema::Many(e) => {
            if let Value::List(vs) = v {
                lemma_reported_list(*e, vs);
            }
        },
        Schema::Optional(e) => {
            lemma_reported_len(*e, v);
        },
        Schema::Struct(fs) => {
            if let Value::Fields(vs) = v {
                lemma_reported_fields(fs, 0, vs);
            }
        },
        _ => {},
    }
}

/// Without record batches, the reported length of a list is its encoded length.
pub proof fn lemma_reported_list(e: Schema, vs: Seq<Value>)
    requires
        no_batch(e),
    ensures
        reported_list(e, vs) == encode_list(e, vs).len(),
    decreases e, 1int, vs.len(),
{
    if vs.len() > 0 {
        lemma_reported_len(e, vs[0]);
        lemma_reported_list(e, vs.drop_first());
    }
}

/// Without record batches, the reported length of fields is their encoded length.
pub proof fn lemma_reported_fields(fs: Seq<Schema>, i: int, vs: Seq<Value>)
    requires
        forall|k: int| 0 <= k < fs.len() ==> no_batch(#[trigger] fs[k]),
    ensures
        reported_fields(fs, i, vs) == encode_fields(fs, i, vs).len(),
    decreases fs, 0int, fs.len() - i,
{
    if 0 <= i < fs.len() && i < vs.len() {
        lemma_reported_len(fs[i], vs[i]);
        lemma_reported_fields(fs, i + 1, vs);
    }
}

/// Reporting the length of a list is summing over its parts.
pub proof fn lemma_reported_list_append(e: Schema, a: Seq<Value>, b: Seq<Value>)
    ensures
        reported_list(e, a + b) == reported_list(e, a) + reported_list(e, b),
    decreases a.len(),
{
    if a.len() == 0 {
        assert(a + b =~= b);
    } else {
        assert((a + b).drop_first() =~= a.drop_first() + b);
        assert((a + b)[0] == a[0]);
        lemma_reported_list_append(e, a.drop_first(), b);
    }
}

/// The reported length of a one-element list is that of the element.
pub proof fn lemma_reported_list_one(e: Schema, v: Value)
    ensures
        reported_list(e, seq![v]) == reported_len(e, v),
{
    assert(seq![v].drop_first() =~= Seq::<Value>::empty());
    assert(seq![v][0] == v);
    assert(reported_list(e, Seq::<Value>::empty()) == 0);
}

/// `v` is a value of shape `sch` that can be encoded: integers in range,
/// strings valid UTF-8 and short enough for their length prefix, lists short
/// enough for their count.
pub open spec fn wf_value(sch: Schema, v: Value) -> bool
    decreases sch,
{
    match sch {
        Schema::I8 => v matches Value::Int(i) && fits_signed(i, 1),
        Schema::I16 => v matches Value::Int(i) && fits_signed(i, 2),
        Schema::I32 => v matches Value::Int(i) && fits_signed(i, 4),
        Schema::I64 => v matches Value::Int(i) && fits_signed(i, 8),
        Schema::ErrorCode => v matches Value::Int(i) && is_error_code(i),
        Schema::Bool => v is Bool,
        Schema::Str => v matches Value::Bytes(b) && b.len() <= i16::MAX && valid_utf8(b),
        Schema::NullableStr => v is Null || (v matches Value::Bytes(b) && b.len() <= i16::MAX
            && valid_utf8(b)),
        Schema::Bytes => v matches Value::Bytes(b) && b.len() <= i32::MAX,
        Schema::NullableBytes => v is Null || (v matches Value::Bytes(b) && b.len() <= i32::MAX),
        Schema::Array(e) => v matches Value::List(vs) && vs.len() <= i32::MAX && forall|k: int|
            0 <= k < vs.len() ==> wf_value(*e, #[trigger] vs[k]),
        Schema::Many(e) => v matches Value::List(vs) && forall|k: int|
            0 <= k < vs.len() ==> wf_value(*e, #[trigger] vs[k]),
        Schema::Optional(e) => v is Null || wf_value(*e, v),
        Schema::Struct(fs) => v matches Value::Fields(vs) && vs.len() == fs.len() && forall|k: int|
            0 <= k < vs.len() ==> wf_value(fs[k], #[trigger] vs[k]),
        Schema::VarInt => v matches Value::Int(i) && fits_signed(i, 4),
        Schema::VarBytes => v matches Value::Bytes(b) && b.len() <= i32::MAX,
        Schema::VarStr => v matches Value::Bytes(b) && b.len() <= i32::MAX && valid_utf8(b),
        Schema::VarArray(e) => v matches Value::List(vs) && vs.len() <= i32::MAX && forall|k: int|
            0 <= k < vs.len() ==> wf_value(*e, #[trigger] vs[k]),
        Schema::RecordBatch(rs) => v is Null || match *rs {
            Schema::Struct(fs) => {
                &&& v is Fields
                &&& wf_value(*rs, written_set(fs, v))
                &&& 21 + batch_tail(fs, v).len() <= i32::MAX
            },
            _ => false,
        },
        Schema::RawBatch => v is Null || wf_raw(fields_of(v)) && v is Fields,
    }
}

/// The schema has no element that reads ahead: every list is counted, and
/// record batches hold record sets.
pub open spec fn framed(sch: Schema) -> bool
    decreases sch,
{
    match sch {
        Schema::Array(e) => framed(*e),
        Schema::VarArray(e) => framed(*e),
        Schema::RecordBatch(rs) => *rs == Schema::Struct(record_set_fields()),
        Schema::RawBatch => true,
        Schema::Many(_) => false,
        Schema::Optional(_) => false,
        Schema::Struct(fs) => forall|k: int| 0 <= k < fs.len() ==> framed(#[trigger] fs[k]),
        _ => true,
    }
}

/// The bits of a `u32` read as a signed number fit four bytes, and give the
/// `u32` back.
pub proof fn lemma_u32_signed(u: u32)
    ensures
        fits_signed(to_signed(u as nat, 4), 4),
        to_unsigned(to_signed(u as nat, 4), 4) == u,
{
    lemma_pow256_values();
}

/// The big-endian bytes of a number in `w` bytes are `w` bytes.
pub proof fn lemma_be_bytes_len(u: nat, w: nat)
    ensures
        be_bytes(u, w).len() == w,
    decreases w,
{
    if w > 0 {
        lemma_be_bytes_len(u / 256, (w - 1) as nat);
    }
}

/// The powers of 256 that the integer types use.
pub proof fn lemma_pow256_values()
    ensures
        pow256(1) == 256,
        pow256(2) == 65536,
        pow256(4) == 4294967296,
        pow256(8) == 18446744073709551616,
{
    reveal_with_fuel(pow256, 9);
}

/// Powers of 256 are positive.
pub proof fn lemma_pow256_pos(w: nat)
    ensures
        pow256(w) >= 1,
        w >= 1 ==> pow256(w) % 2 == 0 && pow256(w) >= 256,
    decreases w,
{
    if w > 0 {
        lemma_pow256_pos((w - 1) as nat);
    }
}

/// Reading back big-endian bytes gives the number they encode.
pub proof fn lemma_be_roundtrip(s: Seq<u8>, pos: int, u: nat, w: nat)
    requires
        0 <= pos,
        pos + w <= s.len(),
        u < pow256(w),
        s.subrange(pos, pos + w) == be_bytes(u, w),
    ensures
        be_at(s, pos, w) == u,
    decreases w,
{
    lemma_be_bytes_len(u, w);
    if w > 0 {
        let w1 = (w - 1) as nat;
        lemma_be_bytes_len(u / 256, w1);
        assert(s.subrange(pos, pos + w1) =~= be_bytes(u / 256, w1)) by {
            assert(s.subrange(pos, pos + w1) =~= s.subrange(pos, pos + w).drop_last());
        }
        assert(s[pos + w - 1] == s.subrange(pos, pos + w)[w - 1]);
        assert(u / 256 < pow256(w1)) by (nonlinear_arith)
            requires
                u < 256 * pow256(w1),
        ;
        lemma_be_roundtrip(s, pos, u / 256, w1);
    }
}

/// `be_at` only reads the bytes it covers, and stays below `256^w`.
pub proof fn lemma_be_at_bound(s: Seq<u8>, pos: int, w: nat)
    ensures
        be_at(s, pos, w) < pow256(w),
    decreases w,
{
    if w > 0 {
        let w1 = (w - 1) as nat;
        lemma_be_at_bound(s, pos, w1);
        let a = be_at(s, pos, w1);
        let b = s[pos + w - 1] as nat;
        assert(a * 256 + b < 256 * pow256(w1)) by (nonlinear_arith)
            requires
                a < pow256(w1),
                b < 256,
        ;
    }
}

/// A signed integer read back from its two's complement bytes.
pub proof fn lemma_int_roundtrip(s: Seq<u8>, pos: int, v: int, w: nat)
    requires
        w >= 1,
        fits_signed(v, w),
        0 <= pos,
        pos + w <= s.len(),
        s.subrange(pos, pos + w) == int_bytes(v, w),
    ensures
        parse_int(s, pos, w) == Parsed::Done(Value::Int(v), pos + w),
{
    lemma_pow256_pos(w);
    lemma_be_roundtrip(s, pos, to_unsigned(v, w), w);
}

/// The encoding of an integer in `w` bytes is `w` bytes.
pub proof fn lemma_int_bytes_len(v: int, w: nat)
    ensures
        int_bytes(v, w).len() == w,
{
    lemma_be_bytes_len(to_unsigned(v, w), w);
}

/// If `a + b` sits at `pos`, then `a` sits at `pos` and `b` right after it.
pub proof fn lemma_split(s: Seq<u8>, pos: int, a: Seq<u8>, b: Seq<u8>)
    requires
        0 <= pos,
        pos + a.len() + b.len() <= s.len(),
        s.subrange(pos, pos + a.len() + b.len()) == a + b,
    ensures
        s.subrange(pos, pos + a.len()) == a,
        s.subrange(pos + a.len(), pos + a.len() + b.len()) == b,
{
    assert(s.subrange(pos, pos + a.len()) =~= (a + b).subrange(0, a.len() as int));
    assert(s.subrange(pos + a.len(), pos + a.len() + b.len()) =~= (a + b).subrange(
        a.len() as int,
        (a.len() + b.len()) as int,
    ));
    assert((a + b).subrange(0, a.len() as int) =~= a);
    assert((a + b).subrange(a.len() as int, (a.len() + b.len()) as int) =~= b);
}

/// Reading a length-prefixed byte string back gives the bytes, and stops
/// right after them.
pub proof fn lemma_delimited_roundtrip(s: Seq<u8>, pos: int, b: Seq<u8>, w: nat, nullable: bool, utf8: bool)
    requires
        w == 2 || w == 4,
        fits_signed(b.len() as int, w),
        utf8 ==> valid_utf8(b),
        0 <= pos,
        pos + w + b.len() <= s.len(),
        s.subrange(pos, pos + w + b.len()) == int_bytes(b.len() as int, w) + b,
    ensures
        parse_delimited(s, pos, w, nullable, utf8) == Parsed::Done(Value::Bytes(b), pos + w + b.len()),
{
    lemma_int_bytes_len(b.len() as int, w);
    lemma_split(s, pos, int_bytes(b.len() as int, w), b);
    lemma_int_roundtrip(s, pos, b.len() as int, w);
}

/// Parsing the encoding of a well-formed value gives the value back, and
/// stops right after its encoding, whatever follows it.
#[verifier::spinoff_prover]
#[verifier::rlimit(50)]
pub proof fn lemma_parse_encode(sch: Schema, v: Value, s: Seq<u8>, pos: int)
    requires
        framed(sch),
        wf_value(sch, v),
        0 <= pos,
        pos + encode_value(sch, v).len() <= s.len(),
        s.subrange(pos, pos + encode_value(sch, v).len()) == encode_value(sch, v),
    ensures
        parse_value(sch, s, pos) == Parsed::Done(v, pos + encode_value(sch, v).len()),
    decreases sch, 0int, 0int,
{
    let enc = encode_value(sch, v);
    lemma_pow256_values();
    match sch {
        Schema::I8 => {
            if let Value::Int(i) = v {
                lemma_int_bytes_len(i, 1);
                lemma_int_roundtrip(s, pos, i, 1);
            }
        },
        Schema::I16 => {
            if let Value::Int(i) = v {
                lemma_int_bytes_len(i, 2);
                lemma_int_roundtrip(s, pos, i, 2);
            }
        },
        Schema::I32 => {
            if let Value::Int(i) = v {
                lemma_int_bytes_len(i, 4);
                lemma_int_roundtrip(s, pos, i, 4);
            }
        },
        Schema::I64 => {
            if let Value::Int(i) = v {
                lemma_int_bytes_len(i, 8);
                lemma_int_roundtrip(s, pos, i, 8);
            }
        },
        Schema::ErrorCode => {
            if let Value::Int(i) = v {
                lemma_int_bytes_len(i, 2);
                lemma_int_roundtrip(s, pos, i, 2);
            }
        },
        Schema::Bool => {
            assert(s[pos] == enc[0]);
        },
        Schema::Str => {
            if let Value::Bytes(b) = v {
                lemma_int_bytes_len(b.len() as int, 2);
                lemma_delimited_roundtrip(s, pos, b, 2, false, true);
            }
        },
        Schema::NullableStr => {
            match v {
                Value::Bytes(b) => {
                    lemma_int_bytes_len(b.len() as int, 2);
                    lemma_delimited_roundtrip(s, pos, b, 2, true, true);
                },
                _ => {
                    lemma_int_bytes_len(-1, 2);
                    lemma_int_roundtrip(s, pos, -1, 2);
                },
            }
        },
        Schema::Bytes => {
            if let Value::Bytes(b) = v {
                lemma_int_bytes_len(b.len() as int, 4);
                lemma_delimited_roundtrip(s, pos, b, 4, false, false);
            }
        },
        Schema::NullableBytes => {
            match v {
                Value::Bytes(b) => {
                    lemma_int_bytes_len(b.len() as int, 4);
                    lemma_delimited_roundtrip(s, pos, b, 4, true, false);
                },
                _ => {
                    lemma_int_bytes_len(-1, 4);
                    lemma_int_roundtrip(s, pos, -1, 4);
                },
            }
        },
        Schema::Array(e) => {
            if let Value::List(vs) = v {
                let head = int_bytes(vs.len() as int, 4);
                let body = encode_list(*e, vs);
                lemma_int_bytes_len(vs.len() as int, 4);
                lemma_split(s, pos, head, body);
                lemma_int_roundtrip(s, pos, vs.len() as int, 4);
                lemma_parse_encode_list(*e, vs, s, pos + 4);
            }
        },
        Schema::Many(_) => {},
        Schema::Optional(_) => {},
        Schema::Struct(fs) => {
            if let Value::Fields(vs) = v {
                lemma_parse_encode_fields(fs, 0, vs, s, pos);
                assert(vs.subrange(0, vs.len() as int) =~= vs);
            }
        },
        Schema::VarInt => {
            if let Value::Int(i) = v {
                lemma_varint_roundtrip(i, s, pos);
            }
        },
        Schema::VarBytes => {
            if let Value::Bytes(b) = v {
                lemma_var_delimited_roundtrip(s, pos, b, false);
            }
        },
        Schema::VarStr => {
            if let Value::Bytes(b) = v {
                lemma_var_delimited_roundtrip(s, pos, b, true);
            }
        },
        Schema::VarArray(e) => {
            if let Value::List(vs) = v {
                let head = varint_bytes(vs.len() as int);
                let body = encode_list(*e, vs);
                lemma_split(s, pos, head, body);
                lemma_varint_roundtrip(vs.len() as int, s, pos);
                lemma_parse_encode_list(*e, vs, s, pos + head.len());
            }
        },
        Schema::RecordBatch(rs) => {
            match v {
                Value::Fields(_) => {
                    let fs = record_set_fields();
                    let set = written_set(fs, v);
                    let body = encode_fields(fs, 0, fields_of(set));
                    lemma_written_batch(v);
                    lemma_int_bytes_len(body.len() as int, 4);
                    assert(enc == int_bytes(body.len() as int, 4) + body);
                    lemma_delimited_roundtrip(s, pos, body, 4, true, false);
                    assert(body.subrange(0, body.len() as int) =~= body);
                    lemma_parse_encode(*rs, set, body, 0);
                },
                _ => {
                    lemma_int_bytes_len(-1, 4);
                    lemma_int_roundtrip(s, pos, -1, 4);
                },
            }
        },
        Schema::RawBatch => {
            match v {
                Value::Fields(f) => {
                    let body = raw_body(f);
                    lemma_raw_body(f);
                    lemma_int_bytes_len(body.len() as int, 4);
                    lemma_delimited_roundtrip(s, pos, body, 4, true, false);
                },
                _ => {
                    lemma_int_bytes_len(-1, 4);
                    lemma_int_roundtrip(s, pos, -1, 4);
                },
            }
        },
    }
}

/// The bytes of a batch with its records as they are read back as that
/// batch: its length leaves room for the fixed part, and checking them
/// passes and gives the fields back.
pub proof fn lemma_raw_body(f: Seq<Value>)
    requires
        wf_raw(f),
    ensures
        raw_body(f).len() == 61 + bytes_of(fields_of(f[9])[1]).len(),
        fits_signed(raw_body(f).len() as int, 4),
        raw_batch_value(raw_body(f)) == Some(Value::Fields(f)),
{
    let tail = raw_tail(f);
    let body = raw_body(f);
    let r = fields_of(f[9]);
    let crc = crc32c(tail);
    let bl = (9 + tail.len()) as int;
    let scrc = to_signed(crc as nat, 4);
    lemma_pow256_values();
    lemma_u32_signed(crc);
    lemma_int_bytes_len(int_of(f[0]), 8);
    lemma_int_bytes_len(bl, 4);
    lemma_int_bytes_len(int_of(f[1]), 4);
    lemma_int_bytes_len(2, 1);
    lemma_int_bytes_len(scrc, 4);
    lemma_int_bytes_len(int_of(f[2]), 2);
    lemma_int_bytes_len(int_of(f[3]), 4);
    lemma_int_bytes_len(int_of(f[4]), 8);
    lemma_int_bytes_len(int_of(f[5]), 8);
    lemma_int_bytes_len(int_of(f[6]), 8);
    lemma_int_bytes_len(int_of(f[7]), 2);
    lemma_int_bytes_len(int_of(f[8]), 4);
    lemma_int_bytes_len(int_of(r[0]), 4);
    assert(tail.len() == 40 + bytes_of(r[1]).len());
    assert(body.len() == 61 + bytes_of(r[1]).len());
    assert(body.subrange(0, 8) =~= int_bytes(int_of(f[0]), 8));
    lemma_int_roundtrip(body, 0, int_of(f[0]), 8);
    assert(body.subrange(12, 16) =~= int_bytes(int_of(f[1]), 4));
    lemma_int_roundtrip(body, 12, int_of(f[1]), 4);
    assert(body.subrange(16, 17) =~= int_bytes(2, 1));
    lemma_int_roundtrip(body, 16, 2, 1);
    assert(body.subrange(17, 21) =~= int_bytes(scrc, 4));
    lemma_int_roundtrip(body, 17, scrc, 4);
    assert(body.subrange(21, body.len() as int) =~= tail);
    assert(body.subrange(21, 23) =~= int_bytes(int_of(f[2]), 2));
    lemma_int_roundtrip(body, 21, int_of(f[2]), 2);
    assert(body.subrange(23, 27) =~= int_bytes(int_of(f[3]), 4));
    lemma_int_roundtrip(body, 23, int_of(f[3]), 4);
    assert(body.subrange(27, 35) =~= int_bytes(int_of(f[4]), 8));
    lemma_int_roundtrip(body, 27, int_of(f[4]), 8);
    assert(body.subrange(35, 43) =~= int_bytes(int_of(f[5]), 8));
    lemma_int_roundtrip(body, 35, int_of(f[5]), 8);
    assert(body.subrange(43, 51) =~= int_bytes(int_of(f[6]), 8));
    lemma_int_roundtrip(body, 43, int_of(f[6]), 8);
    assert(body.subrange(51, 53) =~= int_bytes(int_of(f[7]), 2));
    lemma_int_roundtrip(body, 51, int_of(f[7]), 2);
    assert(body.subrange(53, 57) =~= int_bytes(int_of(f[8]), 4));
    lemma_int_roundtrip(body, 53, int_of(f[8]), 4);
    assert(body.subrange(57, 61) =~= int_bytes(int_of(r[0]), 4));
    lemma_int_roundtrip(body, 57, int_of(r[0]), 4);
    assert(body.subrange(61, body.len() as int) =~= bytes_of(r[1]));
    assert(body[16] == 2) by {
        assert(int_bytes(2, 1) =~= seq![2u8]);
        assert(body[16] == body.subrange(16, 17)[0]);
    }
    assert(r =~= seq![int_at(body, 57, 4), Value::Bytes(body.subrange(61, body.len() as int))]);
    assert(f =~= seq![int_at(body, 0, 8), int_at(body, 12, 4), int_at(body, 21, 2), int_at(body, 23, 4), int_at(body, 27, 8), int_at(body, 35, 8), int_at(body, 43, 8), int_at(body, 51, 2), int_at(body, 53, 4), Value::Fields(r)]);
}

/// Encoding fields from `i` on reads only the values from `i` on.
pub proof fn lemma_fields_suffix(fs: Seq<Schema>, i: int, a: Seq<Value>, b: Seq<Value>)
    requires
        0 <= i,
        a.len() == b.len(),
        forall|k: int| i <= k < a.len() ==> a[k] == b[k],
    ensures
        encode_fields(fs, i, a) == encode_fields(fs, i, b),
    decreases fs.len() - i,
{
    if i < fs.len() && i < a.len() {
        lemma_fields_suffix(fs, i + 1, a, b);
    }
}

/// The records `rs` stored with their lengths: one for one.
pub proof fn lemma_full_records_index(rfs: Seq<Schema>, rs: Seq<Value>)
    ensures
        full_records(rfs, rs).len() == rs.len(),
        forall|k: int| 0 <= k < rs.len() ==> #[trigger] full_records(rfs, rs)[k] == full_record_of(rfs, rs[k]),
    decreases rs.len(),
{
    let frs = full_records(rfs, rs);
    if rs.len() > 0 {
        let rest = rs.drop_first();
        lemma_full_records_index(rfs, rest);
        assert(frs.drop_first() =~= full_records(rfs, rest));
        assert forall|k: int| 0 <= k < rs.len() implies #[trigger] frs[k] == full_record_of(rfs, rs[k]) by {
            if k > 0 {
                assert(frs[k] == frs.drop_first()[k - 1]);
                assert(rs[k] == rest[k - 1]);
            }
        }
    }
}

/// Records stored with their lengths read back as themselves once the
/// lengths are dropped.
pub proof fn lemma_full_records_view(rfs: Seq<Schema>, rs: Seq<Value>)
    requires
        forall|k: int| 0 <= k < rs.len() ==> #[trigger] rs[k] is Fields,
    ensures
        full_records(rfs, rs).map_values(|r: Value| record_view(r)) == rs,
{
    let frs = full_records(rfs, rs);
    lemma_full_records_index(rfs, rs);
    assert forall|k: int| 0 <= k < rs.len() implies #[trigger] record_view(frs[k]) == rs[k] by {
        let xs = fields_of(rs[k]);
        assert(rs[k] == Value::Fields(xs));
        assert((seq![Value::Int(body_of(rfs, rs[k]).len() as int)] + xs).drop_first() =~= xs);
    }
    assert(frs.map_values(|r: Value| record_view(r)) =~= rs);
}

/// The record set written for a batch that can be written: its bytes hold
/// the checksummed part after the first 21, and checking it passes and
/// gives the batch back.
pub proof fn lemma_written_batch(v: Value)
    requires
        wf_value(Schema::RecordBatch(Box::new(Schema::Struct(record_set_fields()))), v),
        v is Fields,
    ensures
        ({
            let fs = record_set_fields();
            let body = encode_fields(fs, 0, fields_of(written_set(fs, v)));
            &&& wf_value(Schema::Struct(fs), written_set(fs, v))
            &&& framed(Schema::Struct(fs))
            &&& encode_value(Schema::Struct(fs), written_set(fs, v)) == body
            &&& fits_signed(body.len() as int, 4)
            &&& 0 < body.len()
            &&& verify_batch(written_set(fs, v), body) == Some(v)
        }),
{
    let fs = record_set_fields();
    let rfs = stored_record_fields();
    let hfs = header_fields();
    let tail = batch_tail(fs, v);
    let crc = to_signed(crc32c(tail) as nat, 4);
    let bl = (9 + tail.len()) as int;
    let set = written_set(fs, v);
    let f = fields_of(v);
    lemma_pow256_values();
    assert(wf_value(Schema::Struct(fs), set));
    assert(set is Fields);
    assert(f.len() == 10);
    let rs = match f[9] {
        Value::List(rs) => rs,
        _ => Seq::empty(),
    };
    assert(f[9] == Value::List(rs));
    let frs = full_records(rfs, rs);
    let sv = seq![f[0], Value::Int(bl), f[1], Value::Int(2), Value::Int(crc), f[2], f[3], f[4], f[5], f[6], f[7], f[8], Value::List(frs)];
    assert(set == Value::Fields(sv));
    let sv0 = fields_of(stored_set(fs, v, 0, 0));
    assert(sv0 == seq![f[0], Value::Int(0), f[1], Value::Int(2), Value::Int(0), f[2], f[3], f[4], f[5], f[6], f[7], f[8], Value::List(frs)]);
    lemma_fields_suffix(fs, 5, sv, sv0);
    assert(encode_fields(fs, 5, sv) == tail);
    // the records are records
    assert(wf_value(fs[12], sv[12]));
    lemma_full_records_index(rfs, rs);
    assert forall|k: int| 0 <= k < rs.len() implies #[trigger] rs[k] is Fields by {
        assert(frs[k] == full_record_of(rfs, rs[k]));
        assert(wf_value(Schema::Struct(rfs), frs[k]));
    }
    lemma_full_records_view(rfs, rs);
    // the framing of the record set
    assert(framed(Schema::Struct(hfs))) by {
        assert forall|k: int| 0 <= k < hfs.len() implies framed(#[trigger] hfs[k]) by {
            if k == 0 {} else {}
        }
    }
    assert(framed(Schema::Struct(rfs))) by {
        assert forall|k: int| 0 <= k < rfs.len() implies framed(#[trigger] rfs[k]) by {
            if k == 6 {} else {}
        }
    }
    assert forall|k: int| 0 <= k < fs.len() implies framed(#[trigger] fs[k]) by {
        if k == 12 {} else {}
    }
    // the bytes
    let body = encode_fields(fs, 0, sv);
    assert(encode_fields(fs, 4, sv) == encode_value(fs[4], sv[4]) + encode_fields(fs, 5, sv));
    assert(encode_fields(fs, 3, sv) == encode_value(fs[3], sv[3]) + encode_fields(fs, 4, sv));
    assert(encode_fields(fs, 2, sv) == encode_value(fs[2], sv[2]) + encode_fields(fs, 3, sv));
    assert(encode_fields(fs, 1, sv) == encode_value(fs[1], sv[1]) + encode_fields(fs, 2, sv));
    assert(encode_fields(fs, 0, sv) == encode_value(fs[0], sv[0]) + encode_fields(fs, 1, sv));
    assert(wf_value(fs[0], sv[0]));
    assert(wf_value(fs[2], sv[2]));
    let f0 = match f[0] { Value::Int(i) => i, _ => 0 };
    let f1 = match f[1] { Value::Int(i) => i, _ => 0 };
    lemma_int_bytes_len(f0, 8);
    lemma_int_bytes_len(bl, 4);
    lemma_int_bytes_len(f1, 4);
    lemma_int_bytes_len(2, 1);
    lemma_int_bytes_len(crc, 4);
    assert(body =~= int_bytes(f0, 8) + int_bytes(bl, 4) + int_bytes(f1, 4) + int_bytes(2, 1) + int_bytes(crc, 4) + tail);
    assert(body.subrange(crc_start(), body.len() as int) =~= tail);
    assert(seq![sv[0], sv[2], sv[5], sv[6], sv[7], sv[8], sv[9], sv[10], sv[11], Value::List(frs.map_values(|r: Value| record_view(r)))] =~= f);
}

/// LEB128 bytes: how many there are, that they read back as the number,
/// and that a variable-length integer that starts with them ends with them.
pub proof fn lemma_leb_bytes(u: nat)
    ensures
        leb_bytes(u).len() >= 1,
        u < 128 ==> leb_bytes(u).len() <= 1,
        u < 16384 ==> leb_bytes(u).len() <= 2,
        u < 2097152 ==> leb_bytes(u).len() <= 3,
        u < 268435456 ==> leb_bytes(u).len() <= 4,
        u < 34359738368 ==> leb_bytes(u).len() <= 5,
        leb_sum(leb_bytes(u)) == u,
        forall|w: Seq<u8>| #![trigger varint_len(w)]
            leb_bytes(u).len() <= w.len() && w.subrange(0, leb_bytes(u).len() as int) == leb_bytes(u)
            ==> varint_len(w) == leb_bytes(u).len(),
    decreases u,
{
    if u >= 128 {
        lemma_leb_bytes(u / 128);
        let b = leb_bytes(u);
        let rest = leb_bytes(u / 128);
        assert(b.drop_first() =~= rest);
        assert(b[0] == (u % 128 + 128) as u8);
        assert(leb_sum(b) == (b[0] % 128) as nat + 128 * leb_sum(rest));
        assert((u % 128 + 128) % 128 == u % 128);
        assert(u % 128 + 128 * (u / 128) == u);
        assert forall|w: Seq<u8>| #![trigger varint_len(w)]
            b.len() <= w.len() && w.subrange(0, b.len() as int) == b implies varint_len(w) == b.len() by {
            assert(w[0] == b[0]);
            assert(w.drop_first().subrange(0, rest.len() as int) =~= w.subrange(0, b.len() as int).drop_first());
            assert(varint_len(w.drop_first()) == rest.len());
        }
    } else {
        let b = leb_bytes(u);
        assert(b.drop_first() =~= Seq::<u8>::empty());
        assert(b[0] == u as u8);
        assert(leb_sum(b.drop_first()) == 0);
        assert(leb_sum(b) == (b[0] % 128) as nat + 128 * leb_sum(b.drop_first()));
        assert forall|w: Seq<u8>| #![trigger varint_len(w)]
            b.len() <= w.len() && w.subrange(0, b.len() as int) == b implies varint_len(w) == b.len() by {
            assert(w[0] == b[0]);
        }
    }
}

/// A variable-length `i32` takes one to five bytes.
pub proof fn lemma_varint_bytes_len(v: int)
    requires
        -2147483648 <= v <= 2147483647,
    ensures
        1 <= varint_bytes(v).len() <= 5,
{
    lemma_leb_bytes(zigzag_encode(v));
}

/// A variable-length integer read back from its encoding.
pub proof fn lemma_varint_roundtrip(v: int, s: Seq<u8>, pos: int)
    requires
        fits_signed(v, 4),
        0 <= pos,
        pos + varint_bytes(v).len() <= s.len(),
        s.subrange(pos, pos + varint_bytes(v).len()) == varint_bytes(v),
    ensures
        parse_varint(s, pos) == Parsed::Done(Value::Int(v), pos + varint_bytes(v).len()),
{
    lemma_pow256_values();
    let u = zigzag_encode(v);
    let b = leb_bytes(u);
    lemma_leb_bytes(u);
    let w = varint_window(s, pos);
    assert(w.subrange(0, b.len() as int) =~= b);
    assert(varint_len(w) == b.len());
    assert(w.take(b.len() as int) =~= b);
    assert(zigzag_decode(u) == v);
}

/// Reading a variable-length byte string back gives the bytes, and stops
/// right after them.
pub proof fn lemma_var_delimited_roundtrip(s: Seq<u8>, pos: int, b: Seq<u8>, utf8: bool)
    requires
        b.len() <= i32::MAX,
        utf8 ==> valid_utf8(b),
        0 <= pos,
        pos + varint_bytes(b.len() as int).len() + b.len() <= s.len(),
        s.subrange(pos, pos + varint_bytes(b.len() as int).len() + b.len()) == varint_bytes(
            b.len() as int,
        ) + b,
    ensures
        parse_var_delimited(s, pos, utf8) == Parsed::Done(
            Value::Bytes(b),
            pos + varint_bytes(b.len() as int).len() + b.len(),
        ),
{
    lemma_pow256_values();
    lemma_split(s, pos, varint_bytes(b.len() as int), b);
    lemma_varint_roundtrip(b.len() as int, s, pos);
}

/// Reading the encodings of well-formed elements back, one after the other,
/// gives the elements.
pub proof fn lemma_parse_encode_list(e: Schema, vs: Seq<Value>, s: Seq<u8>, pos: int)
    requires
        framed(e),
        forall|k: int| 0 <= k < vs.len() ==> wf_value(e, #[trigger] vs[k]),
        0 <= pos,
        pos + encode_list(e, vs).len() <= s.len(),
        s.subrange(pos, pos + encode_list(e, vs).len()) == encode_list(e, vs),
    ensures
        parse_count(e, vs.len(), s, pos) == Parsed::Done(
            Value::List(vs),
            pos + encode_list(e, vs).len(),
        ),
    decreases e, 1int, vs.len(),
{
    if vs.len() == 0 {
        assert(vs =~= Seq::<Value>::empty());
    } else {
        let a = encode_value(e, vs[0]);
        let rest = vs.drop_first();
        let b = encode_list(e, rest);
        lemma_split(s, pos, a, b);
        lemma_parse_encode(e, vs[0], s, pos);
        assert forall|k: int| 0 <= k < rest.len() implies wf_value(e, #[trigger] rest[k]) by {
            assert(rest[k] == vs[k + 1]);
        }
        lemma_parse_encode_list(e, rest, s, pos + a.len());
        assert(seq![vs[0]] + rest =~= vs);
        assert((vs.len() - 1) as nat == rest.len());
    }
}

/// Reading the encodings of well-formed fields back, from field `i` on,
/// gives the fields.
pub proof fn lemma_parse_encode_fields(fs: Seq<Schema>, i: int, vs: Seq<Value>, s: Seq<u8>, pos: int)
    requires
        0 <= i <= fs.len(),
        vs.len() == fs.len(),
        forall|k: int| 0 <= k < fs.len() ==> framed(#[trigger] fs[k]),
        forall|k: int| 0 <= k < vs.len() ==> wf_value(fs[k], #[trigger] vs[k]),
        0 <= pos,
        pos + encode_fields(fs, i, vs).len() <= s.len(),
        s.subrange(pos, pos + encode_fields(fs, i, vs).len()) == encode_fields(fs, i, vs),
    ensures
        parse_fields(fs, i, s, pos) == Parsed::Done(
            Value::Fields(vs.subrange(i, vs.len() as int)),
            pos + encode_fields(fs, i, vs).len(),
        ),
    decreases fs, 0int, fs.len() - i,
{
    if i == fs.len() {
        assert(vs.subrange(i, vs.len() as int) =~= Seq::<Value>::empty());
    } else {
        let a = encode_value(fs[i], vs[i]);
        let b = encode_fields(fs, i + 1, vs);
        lemma_split(s, pos, a, b);
        lemma_parse_encode(fs[i], vs[i], s, pos);
        lemma_parse_encode_fields(fs, i + 1, vs, s, pos + a.len());
        assert(seq![vs[i]] + vs.subrange(i + 1, vs.len() as int) =~= vs.subrange(i, vs.len() as int));
    }
}

/// Encoding a list is encoding its parts one after the other.
pub proof fn lemma_encode_list_append(e: Schema, a: Seq<Value>, b: Seq<Value>)
    ensures
        encode_list(e, a + b) == encode_list(e, a) + encode_list(e, b),
    decreases a.len(),
{
    if a.len() == 0 {
        assert(a + b =~= b);
        assert(encode_list(e, a) =~= Seq::<u8>::empty());
        assert(Seq::<u8>::empty() + encode_list(e, b) =~= encode_list(e, b));
    } else {
        assert((a + b).drop_first() =~= a.drop_first() + b);
        assert((a + b)[0] == a[0]);
        lemma_encode_list_append(e, a.drop_first(), b);
        assert(encode_list(e, a + b) =~= encode_list(e, a) + encode_list(e, b));
    }
}

/// A one-element list encodes as its element.
pub proof fn lemma_encode_list_one(e: Schema, v: Value)
    ensures
        encode_list(e, seq![v]) == encode_value(e, v),
{
    assert(seq![v].drop_first() =~= Seq::<Value>::empty());
    assert(seq![v][0] == v);
    assert(encode_list(e, Seq::<Value>::empty()) == Seq::<u8>::empty());
    assert(encode_list(e, seq![v]) =~= encode_value(e, v) + Seq::<u8>::empty());
}

/// A counted parse that succeeds gives exactly that many elements.
pub proof fn lemma_parse_count_len(e: Schema, n: nat, s: Seq<u8>, pos: int)
    ensures
        parse_count(e, n, s, pos) matches Parsed::Done(Value::List(vs), _) ==> vs.len() == n,
    decreases n,
{
    if n > 0 && 0 <= pos <= s.len() {
        match parse_value(e, s, pos) {
            Parsed::Done(v, p) => {
                lemma_parse_count_len(e, (n - 1) as nat, s, p);
            },
            _ => {},
        }
    }
}

/// A counted parse gives a list or a failure.
pub proof fn lemma_parse_count_shape(e: Schema, n: nat, s: Seq<u8>, pos: int)
    ensures
        parse_count(e, n, s, pos) is Failed || parse_count(e, n, s, pos) matches Parsed::Done(
            Value::List(_),
            _,
        ),
{
}

/// Puts `prefix` in front of the list that `r` parsed; any failure becomes a
/// committed one.
pub open spec fn prepend(prefix: Seq<Value>, r: Parsed) -> Parsed {
    match r {
        Parsed::Done(Value::List(vs), q) => Parsed::Done(Value::List(prefix + vs), q),
        _ => Parsed::Failed(true),
    }
}

} // verus!
