//! Reading and writing the primitive types of the protocol, and the traits
//! through which message types are parsed and encoded.
use vstd::prelude::*;
use vstd::string::*;
use vstd::utf8::valid_utf8;
use crate::wire::{
    Value, Schema, Parsed, parse_value, encode_value, wf_value, be_at, be_bytes, pow256,
    lemma_be_at_bound, lemma_pow256_values, parse_delimited, parse_int, int_bytes, to_unsigned,
    lemma_int_bytes_len, encode_list, is_error_code, parse_count, parse_many, prepend,
    lemma_encode_list_append, lemma_encode_list_one, lemma_parse_count_shape, framed,
    lemma_parse_encode, varint_decode, varint_len, varint_bytes, varint_window, parse_var_delimited,
    parse_varint, reported_len, reported_list, lemma_reported_list_append, lemma_reported_list_one,
};
use vstd::slice::slice_subrange;

verus! {

/// A Rust value seen as a protocol value.
pub trait Wire {
    spec fn value(&self) -> Value;
}

impl Wire for i8 {
    open spec fn value(&self) -> Value {
        Value::Int(*self as int)
    }
}

impl Wire for i16 {
    open spec fn value(&self) -> Value {
        Value::Int(*self as int)
    }
}

impl Wire for i32 {
    open spec fn value(&self) -> Value {
        Value::Int(*self as int)
    }
}

impl Wire for i64 {
    open spec fn value(&self) -> Value {
        Value::Int(*self as int)
    }
}

impl Wire for bool {
    open spec fn value(&self) -> Value {
        Value::Bool(*self)
    }
}

impl<'a> Wire for &'a str {
    open spec fn value(&self) -> Value {
        Value::Bytes((*self).spec_bytes())
    }
}

impl<'a> Wire for &'a [u8] {
    open spec fn value(&self) -> Value {
        Value::Bytes((*self)@)
    }
}

impl<T: Wire> Wire for Option<T> {
    open spec fn value(&self) -> Value {
        match self {
            Some(x) => x.value(),
            None => Value::Null,
        }
    }
}

/// The protocol values of the elements, in order.
pub open spec fn values_of<T: Wire>(s: Seq<T>) -> Seq<Value> {
    s.map_values(|x: T| x.value())
}

impl<T: Wire> Wire for Vec<T> {
    open spec fn value(&self) -> Value {
        Value::List(values_of(self@))
    }
}

/// The result of an executable parser says what the specification says:
/// the same value and end position, or a failure with the same commit flag.
pub open spec fn agrees<T: Wire>(r: Result<(T, usize), bool>, p: Parsed) -> bool {
    match p {
        Parsed::Done(v, q) => r matches Ok((t, n)) && t.value() == v && n == q,
        Parsed::Failed(c) => r matches Err(d) && d == c,
    }
}

/// A type that can be read from the wire at a position of an input.
pub trait Decode<'i>: Wire + Sized {
    spec fn parse_schema() -> Schema;

    fn parse_at(input: &'i [u8], pos: usize) -> (r: Result<(Self, usize), bool>)
        requires
            pos <= input@.len(),
        ensures
            agrees(r, parse_value(Self::parse_schema(), input@, pos as int)),
            r matches Ok((_, p)) ==> pos <= p <= input@.len(),
    ;
}

/// A type that can be written to the wire.
pub trait Encode: Wire {
    spec fn encode_schema() -> Schema;

    /// The number of bytes that `encode` writes; for a record batch, the
    /// count leaves out the length prefixes of its records.
    fn encode_len(&self) -> (n: usize)
        requires
            wf_value(Self::encode_schema(), self.value()),
            reported_len(Self::encode_schema(), self.value()) <= usize::MAX,
        ensures
            n == reported_len(Self::encode_schema(), self.value()),
    ;

    /// Whether `self` can be written: every length and count fits its
    /// prefix.
    fn encodable(&self) -> (b: bool)
        ensures
            b == wf_value(Self::encode_schema(), self.value()),
    ;

    /// Appends the encoding of `self` to `writer`.
    fn encode(&self, writer: &mut Vec<u8>)
        requires
            wf_value(Self::encode_schema(), self.value()),
        ensures
            final(writer)@ == old(writer)@ + encode_value(Self::encode_schema(), self.value()),
    ;
}

/// `std::str::from_utf8`: the bytes as a string slice when they are valid
/// UTF-8. The contract claims that the call succeeds exactly on valid UTF-8
/// and that the string it returns has the given bytes.
#[verifier::external_body]
fn str_from_utf8<'a>(b: &'a [u8]) -> (r: Option<&'a str>)
    ensures
        r is Some <==> valid_utf8(b@),
        r matches Some(s) ==> s.spec_bytes() == b@,
{
    std::str::from_utf8(b).ok()
}

/// Reads the `w` bytes at `pos` as a big-endian unsigned number.
fn read_be(input: &[u8], pos: usize, w: usize) -> (u: u64)
    requires
        1 <= w <= 8,
        pos + w <= input@.len(),
    ensures
        u == be_at(input@, pos as int, w as nat),
{
    let mut u: u64 = 0;
    let mut i: usize = 0;
    while i < w
        invariant
            i <= w <= 8,
            pos + w <= input.len(),
            u == be_at(input@, pos as int, i as nat),
        decreases w - i,
    {
        proof {
            lemma_be_at_bound(input@, pos as int, i as nat);
            lemma_pow256_le(i as nat);
        }
        let b = input[pos + i];
        u = u * 256 + b as u64;
        i = i + 1;
    }
    u
}

/// Seven bytes and one more still fit 64 bits.
pub proof fn lemma_pow256_le(i: nat)
    requires
        i <= 7,
    ensures
        pow256(i) * 256 <= 18446744073709551616,
{
    reveal_with_fuel(pow256, 9);
    if i == 0 {} else if i == 1 {} else if i == 2 {} else if i == 3 {} else if i == 4 {
    } else if i == 5 {} else if i == 6 {} else {}
}

/// Writes the `w` big-endian bytes of `u`.
pub fn put_be(writer: &mut Vec<u8>, u: u64, w: usize)
    requires
        w <= 8,
    ensures
        final(writer)@ == old(writer)@ + be_bytes(u as nat, w as nat),
    decreases w,
{
    if w > 0 {
        put_be(writer, u / 256, w - 1);
        writer.push((u % 256) as u8);
        proof {
            let a = old(writer)@;
            let b = be_bytes((u / 256) as nat, (w - 1) as nat);
            assert(a + b.push((u % 256) as u8) =~= (a + b).push((u % 256) as u8));
        }
    }
}

/// Reads a big-endian `i8`.
pub fn be_i8(input: &[u8], pos: usize) -> (r: Result<(i8, usize), bool>)
    requires
        pos <= input@.len(),
    ensures
        agrees(r, parse_value(Schema::I8, input@, pos as int)),
        r matches Ok((_, p)) ==> pos <= p <= input@.len(),
{
    proof { lemma_pow256_values(); }
    if input.len() - pos < 1 {
        return Err(false);
    }
    let u = read_be(input, pos, 1);
    proof { lemma_be_at_bound(input@, pos as int, 1); }
    let v: i8 = if u >= 128 {
        (u - 128) as i8 - 127 - 1
    } else {
        u as i8
    };
    Ok((v, pos + 1))
}

/// Reads a big-endian `i16`.
pub fn be_i16(input: &[u8], pos: usize) -> (r: Result<(i16, usize), bool>)
    requires
        pos <= input@.len(),
    ensures
        agrees(r, parse_value(Schema::I16, input@, pos as int)),
        r matches Ok((_, p)) ==> pos <= p <= input@.len(),
{
    proof { lemma_pow256_values(); }
    if input.len() - pos < 2 {
        return Err(false);
    }
    let u = read_be(input, pos, 2);
    proof { lemma_be_at_bound(input@, pos as int, 2); }
    let v: i16 = if u >= 32768 {
        (u - 32768) as i16 - 32767 - 1
    } else {
        u as i16
    };
    Ok((v, pos + 2))
}

/// Reads a big-endian `i32`.
pub fn be_i32(input: &[u8], pos: usize) -> (r: Result<(i32, usize), bool>)
    requires
        pos <= input@.len(),
    ensures
        agrees(r, parse_value(Schema::I32, input@, pos as int)),
        r matches Ok((_, p)) ==> pos <= p <= input@.len(),
{
    proof { lemma_pow256_values(); }
    if input.len() - pos < 4 {
        return Err(false);
    }
    let u = read_be(input, pos, 4);
    proof { lemma_be_at_bound(input@, pos as int, 4); }
    let v: i32 = if u >= 2147483648 {
        (u - 2147483648) as i32 - 2147483647 - 1
    } else {
        u as i32
    };
    Ok((v, pos + 4))
}

/// Reads a big-endian `i64`.
pub fn be_i64(input: &[u8], pos: usize) -> (r: Result<(i64, usize), bool>)
    requires
        pos <= input@.len(),
    ensures
        agrees(r, parse_value(Schema::I64, input@, pos as int)),
        r matches Ok((_, p)) ==> pos <= p <= input@.len(),
{
    proof { lemma_pow256_values(); }
    if input.len() - pos < 8 {
        return Err(false);
    }
    let u = read_be(input, pos, 8);
    proof { lemma_be_at_bound(input@, pos as int, 8); }
    let v: i64 = if u >= 9223372036854775808 {
        (u - 9223372036854775808) as i64 - 9223372036854775807 - 1
    } else {
        u as i64
    };
    Ok((v, pos + 8))
}

/// Reads a boolean: one byte, any nonzero value true.
pub fn boolean(input: &[u8], pos: usize) -> (r: Result<(bool, usize), bool>)
    requires
        pos <= input@.len(),
    ensures
        agrees(r, parse_value(Schema::Bool, input@, pos as int)),
        r matches Ok((_, p)) ==> pos <= p <= input@.len(),
{
    if input.len() - pos < 1 {
        return Err(false);
    }
    Ok((input[pos] != 0, pos + 1))
}

/// A length-prefixed span of `input` at `pos`, with a length prefix of two
/// bytes (`wide` false) or four bytes (`wide` true). `None` is a null span.
fn length_delimited<'i>(input: &'i [u8], pos: usize, wide: bool, nullable: bool) -> (r: Result<
    (Option<&'i [u8]>, usize),
    bool,
>)
    requires
        pos <= input@.len(),
    ensures
        match parse_delimited(input@, pos as int, if wide { 4 } else { 2 }, nullable, false) {
            Parsed::Done(Value::Bytes(b), q) => r matches Ok((Some(x), n)) && x@ == b && n == q,
            Parsed::Done(_, q) => r matches Ok((None, n)) && n == q,
            Parsed::Failed(c) => r matches Err(d) && d == c,
        },
        r matches Ok((_, p)) ==> pos <= p <= input@.len(),
{
    let (n, p): (i64, usize) = if wide {
        match be_i32(input, pos) {
            Ok((n, p)) => (n as i64, p),
            Err(_) => return Err(false),
        }
    } else {
        match be_i16(input, pos) {
            Ok((n, p)) => (n as i64, p),
            Err(_) => return Err(false),
        }
    };
    if n < 0 {
        if nullable {
            return Ok((None, p));
        } else {
            return Err(true);
        }
    }
    if n as u64 > (input.len() - p) as u64 {
        return Err(true);
    }
    let len = n as usize;
    let b = slice_subrange(input, p, p + len);
    Ok((Some(b), p + len))
}

/// Reads a string: an `i16` length, then UTF-8 bytes.
pub fn string<'i>(input: &'i [u8], pos: usize) -> (r: Result<(&'i str, usize), bool>)
    requires
        pos <= input@.len(),
    ensures
        agrees(r, parse_value(Schema::Str, input@, pos as int)),
        r matches Ok((_, p)) ==> pos <= p <= input@.len(),
{
    match length_delimited(input, pos, false, false) {
        Ok((Some(b), p)) => match str_from_utf8(b) {
            Some(s) => Ok((s, p)),
            None => Err(true),
        },
        Ok((None, _)) => Err(true),
        Err(c) => Err(c),
    }
}

/// Reads a nullable string: a negative `i16` length is null.
pub fn nullable_string<'i>(input: &'i [u8], pos: usize) -> (r: Result<
    (Option<&'i str>, usize),
    bool,
>)
    requires
        pos <= input@.len(),
    ensures
        agrees(r, parse_value(Schema::NullableStr, input@, pos as int)),
        r matches Ok((_, p)) ==> pos <= p <= input@.len(),
{
    match length_delimited(input, pos, false, true) {
        Ok((Some(b), p)) => match str_from_utf8(b) {
            Some(s) => Ok((Some(s), p)),
            None => Err(true),
        },
        Ok((None, p)) => Ok((None, p)),
        Err(c) => Err(c),
    }
}

/// Reads a byte string: an `i32` length, then the bytes.
pub fn bytes<'i>(input: &'i [u8], pos: usize) -> (r: Result<(&'i [u8], usize), bool>)
    requires
        pos <= input@.len(),
    ensures
        agrees(r, parse_value(Schema::Bytes, input@, pos as int)),
        r matches Ok((_, p)) ==> pos <= p <= input@.len(),
{
    match length_delimited(input, pos, true, false) {
        Ok((Some(b), p)) => Ok((b, p)),
        Ok((None, _)) => Err(true),
        Err(c) => Err(c),
    }
}

/// Reads a nullable byte string: a negative `i32` length is null.
pub fn nullable_bytes<'i>(input: &'i [u8], pos: usize) -> (r: Result<
    (Option<&'i [u8]>, usize),
    bool,
>)
    requires
        pos <= input@.len(),
    ensures
        agrees(r, parse_value(Schema::NullableBytes, input@, pos as int)),
        r matches Ok((_, p)) ==> pos <= p <= input@.len(),
{
    length_delimited(input, pos, true, true)
}

/// Appends the bytes of `b`.
pub fn put_bytes(writer: &mut Vec<u8>, b: &[u8])
    ensures
        final(writer)@ == old(writer)@ + b@,
{
    let mut i: usize = 0;
    while i < b.len()
        invariant
            i <= b@.len(),
            writer@ == old(writer)@ + b@.subrange(0, i as int),
        decreases b@.len() - i,
    {
        writer.push(b[i]);
        i = i + 1;
        assert(writer@ =~= old(writer)@ + b@.subrange(0, i as int));
    }
    assert(b@.subrange(0, b@.len() as int) =~= b@);
}

/// Appends `v` in two's complement, big endian, in `w` bytes.
pub fn put_int(writer: &mut Vec<u8>, v: i64, w: usize)
    requires
        w == 1 || w == 2 || w == 4 || w == 8,
        w == 1 ==> -128 <= v < 128,
        w == 2 ==> -32768 <= v < 32768,
        w == 4 ==> -2147483648 <= v < 2147483648,
    ensures
        final(writer)@ == old(writer)@ + int_bytes(v as int, w as nat),
{
    proof { lemma_pow256_values(); }
    let u: u64 = if v >= 0 {
        v as u64
    } else if w == 1 {
        (v + 256) as u64
    } else if w == 2 {
        (v + 65536) as u64
    } else if w == 4 {
        (v + 4294967296) as u64
    } else {
        (v + 9223372036854775807 + 1) as u64 + 9223372036854775808
    };
    put_be(writer, u, w);
}

impl Encode for i8 {
    open spec fn encode_schema() -> Schema {
        Schema::I8
    }

    fn encode_len(&self) -> (n: usize) {
        proof { lemma_int_bytes_len(*self as int, 1); }
        1
    }

    fn encodable(&self) -> (b: bool) {
        proof { lemma_pow256_values(); }
        true
    }

    fn encode(&self, writer: &mut Vec<u8>) {
        put_int(writer, *self as i64, 1);
    }
}

impl Encode for i16 {
    open spec fn encode_schema() -> Schema {
        Schema::I16
    }

    fn encode_len(&self) -> (n: usize) {
        proof { lemma_int_bytes_len(*self as int, 2); }
        2
    }

    fn encodable(&self) -> (b: bool) {
        proof { lemma_pow256_values(); }
        true
    }

    fn encode(&self, writer: &mut Vec<u8>) {
        put_int(writer, *self as i64, 2);
    }
}

impl Encode for i32 {
    open spec fn encode_schema() -> Schema {
        Schema::I32
    }

    fn encode_len(&self) -> (n: usize) {
        proof { lemma_int_bytes_len(*self as int, 4); }
        4
    }

    fn encodable(&self) -> (b: bool) {
        proof { lemma_pow256_values(); }
        true
    }

    fn encode(&self, writer: &mut Vec<u8>) {
        put_int(writer, *self as i64, 4);
    }
}

impl Encode for i64 {
    open spec fn encode_schema() -> Schema {
        Schema::I64
    }

    fn encode_len(&self) -> (n: usize) {
        proof { lemma_int_bytes_len(*self as int, 8); }
        8
    }

    fn encodable(&self) -> (b: bool) {
        proof { lemma_pow256_values(); }
        true
    }

    fn encode(&self, writer: &mut Vec<u8>) {
        put_int(writer, *self as i64, 8);
    }
}

impl Encode for bool {
    open spec fn encode_schema() -> Schema {
        Schema::Bool
    }

    fn encode_len(&self) -> (n: usize) {
        1
    }

    fn encodable(&self) -> (b: bool) {
        true
    }

    fn encode(&self, writer: &mut Vec<u8>) {
        writer.push(if *self { 1u8 } else { 0u8 });
        assert(writer@ =~= old(writer)@ + seq![if *self { 1u8 } else { 0u8 }]);
    }
}

impl<'a> Encode for &'a str {
    open spec fn encode_schema() -> Schema {
        Schema::Str
    }

    fn encode_len(&self) -> (n: usize) {
        proof { lemma_int_bytes_len((*self).spec_bytes().len() as int, 2); }
        2 + self.len()
    }

    fn encodable(&self) -> (b: bool) {
        proof { vstd::utf8::encode_utf8_valid_utf8((*self)@); }
        self.as_bytes().len() <= 32767
    }

    fn encode(&self, writer: &mut Vec<u8>) {
        let b = self.as_bytes();
        put_int(writer, b.len() as i64, 2);
        put_bytes(writer, b);
        assert(writer@ =~= old(writer)@ + encode_value(Self::encode_schema(), self.value()));
    }
}

impl<'a> Encode for &'a [u8] {
    open spec fn encode_schema() -> Schema {
        Schema::Bytes
    }

    fn encode_len(&self) -> (n: usize) {
        proof { lemma_int_bytes_len((*self)@.len() as int, 4); }
        4 + self.len()
    }

    fn encodable(&self) -> (b: bool) {
        self.len() <= 2147483647
    }

    fn encode(&self, writer: &mut Vec<u8>) {
        put_int(writer, self.len() as i64, 4);
        put_bytes(writer, self);
        assert(writer@ =~= old(writer)@ + encode_value(Self::encode_schema(), self.value()));
    }
}

impl<'a> Encode for Option<&'a str> {
    open spec fn encode_schema() -> Schema {
        Schema::NullableStr
    }

    fn encode_len(&self) -> (n: usize) {
        match self {
            Some(s) => s.encode_len(),
            None => {
                proof { lemma_int_bytes_len(-1, 2); }
                2
            },
        }
    }

    fn encodable(&self) -> (b: bool) {
        match self {
            Some(s) => s.encodable(),
            None => true,
        }
    }

    fn encode(&self, writer: &mut Vec<u8>) {
        match self {
            Some(s) => s.encode(writer),
            None => put_int(writer, -1, 2),
        }
    }
}

impl<'a> Encode for Option<&'a [u8]> {
    open spec fn encode_schema() -> Schema {
        Schema::NullableBytes
    }

    fn encode_len(&self) -> (n: usize) {
        match self {
            Some(s) => s.encode_len(),
            None => {
                proof { lemma_int_bytes_len(-1, 4); }
                4
            },
        }
    }

    fn encodable(&self) -> (b: bool) {
        match self {
            Some(s) => s.encodable(),
            None => true,
        }
    }

    fn encode(&self, writer: &mut Vec<u8>) {
        match self {
            Some(s) => s.encode(writer),
            None => put_int(writer, -1, 4),
        }
    }
}

impl<T: Encode> Encode for Vec<T> {
    open spec fn encode_schema() -> Schema {
        Schema::Array(Box::new(T::encode_schema()))
    }

    fn encode_len(&self) -> (n: usize) {
        let ghost e = T::encode_schema();
        let ghost vals = values_of(self@);
        let mut n: usize = 4;
        let mut i: usize = 0;
        proof {
            assert(vals.take(0) =~= Seq::<Value>::empty());
        }
        while i < self.len()
            invariant
                i <= self@.len(),
                vals == values_of(self@),
                e == T::encode_schema(),
                wf_value(Self::encode_schema(), self.value()),
                4 + reported_list(e, vals) <= usize::MAX,
                n == 4 + reported_list(e, vals.take(i as int)),
            decreases self@.len() - i,
        {
            proof {
                assert(vals[i as int] == self@[i as int].value());
                assert(vals.take(i + 1) =~= vals.take(i as int) + seq![vals[i as int]]);
                lemma_reported_list_append(e, vals.take(i as int), seq![vals[i as int]]);
                lemma_reported_list_one(e, vals[i as int]);
                assert(vals.take(i + 1) + vals.skip(i + 1) =~= vals);
                lemma_reported_list_append(e, vals.take(i + 1), vals.skip(i + 1));
            }
            let k = self[i].encode_len();
            n = n + k;
            i = i + 1;
        }
        assert(vals.take(i as int) =~= vals);
        n
    }

    fn encodable(&self) -> (b: bool) {
        let ghost vals = values_of(self@);
        if self.len() > 2147483647 {
            return false;
        }
        let mut i: usize = 0;
        while i < self.len()
            invariant
                i <= self@.len(),
                vals == values_of(self@),
                vals.len() <= i32::MAX,
                forall|k: int| 0 <= k < i ==> wf_value(T::encode_schema(), #[trigger] vals[k]),
            decreases self@.len() - i,
        {
            assert(vals[i as int] == self@[i as int].value());
            if !self[i].encodable() {
                return false;
            }
            i = i + 1;
        }
        true
    }

    fn encode(&self, writer: &mut Vec<u8>) {
        let ghost e = T::encode_schema();
        let ghost vals = values_of(self@);
        put_int(writer, self.len() as i64, 4);
        let ghost start = writer@;
        let mut i: usize = 0;
        proof {
            assert(vals.take(0) =~= Seq::<Value>::empty());
            assert(start =~= start + encode_list(e, vals.take(0)));
        }
        while i < self.len()
            invariant
                i <= self@.len(),
                vals == values_of(self@),
                e == T::encode_schema(),
                wf_value(Self::encode_schema(), self.value()),
                start == old(writer)@ + int_bytes(self@.len() as int, 4),
                writer@ == start + encode_list(e, vals.take(i as int)),
            decreases self@.len() - i,
        {
            proof {
                assert(vals[i as int] == self@[i as int].value());
                assert(vals.take(i + 1) =~= vals.take(i as int) + seq![vals[i as int]]);
                lemma_encode_list_append(e, vals.take(i as int), seq![vals[i as int]]);
                lemma_encode_list_one(e, vals[i as int]);
            }
            self[i].encode(writer);
            i = i + 1;
            assert(writer@ =~= start + encode_list(e, vals.take(i as int)));
        }
        assert(vals.take(i as int) =~= vals);
        assert(writer@ =~= old(writer)@ + encode_value(Self::encode_schema(), self.value()));
    }
}

/// Parses an `i32` count, then that many elements; a negative count gives
/// an empty vector.
pub fn array<'i, T: Decode<'i>>(input: &'i [u8], pos: usize) -> (r: Result<(Vec<T>, usize), bool>)
    requires
        pos <= input@.len(),
    ensures
        agrees(r, parse_value(Schema::Array(Box::new(T::parse_schema())), input@, pos as int)),
        r matches Ok((_, p)) ==> pos <= p <= input@.len(),
{
    let (n, p0) = match be_i32(input, pos) {
        Ok(x) => x,
        Err(_) => return Err(false),
    };
    if n < 0 {
        proof { assert(values_of(Seq::<T>::empty()) =~= Seq::<Value>::empty()); }
        return Ok((Vec::new(), p0));
    }
    proof { lemma_parse_count_shape(T::parse_schema(), n as nat, input@, p0 as int); }
    counted(input, p0, n as usize)
}

/// Parses exactly `count` elements, one after the other from `pos`; fails,
/// committed, when one of them fails.
pub fn counted<'i, T: Decode<'i>>(input: &'i [u8], pos: usize, count: usize) -> (r: Result<(Vec<T>, usize), bool>)
    requires
        pos <= input@.len(),
    ensures
        agrees(r, prepend(Seq::empty(), parse_count(T::parse_schema(), count as nat, input@, pos as int))),
        r matches Ok((_, p)) ==> pos <= p <= input@.len(),
{
    let ghost e = T::parse_schema();
    let ghost s = input@;
    let mut vals: Vec<T> = Vec::new();
    let mut q = pos;
    let mut i: usize = 0;
    proof {
        assert(values_of(vals@) =~= Seq::<Value>::empty());
    }
    while i < count
        invariant
            i <= count,
            pos <= q <= input@.len(),
            s == input@,
            e == T::parse_schema(),
            prepend(Seq::empty(), parse_count(e, count as nat, s, pos as int)) == prepend(
                values_of(vals@),
                parse_count(e, (count - i) as nat, s, q as int),
            ),
        decreases count - i,
    {
        match T::parse_at(input, q) {
            Ok((x, q2)) => {
                let ghost before = values_of(vals@);
                vals.push(x);
                proof {
                    assert(values_of(vals@) =~= before.push(x.value()));
                    let rest = parse_count(e, (count - i - 1) as nat, s, q2 as int);
                    match rest {
                        Parsed::Done(Value::List(vs), _) => {
                            assert(before + (seq![x.value()] + vs) =~= before.push(x.value()) + vs);
                        },
                        _ => {},
                    }
                }
                q = q2;
                i = i + 1;
            },
            Err(_) => {
                return Err(true);
            },
        }
    }
    proof {
        assert(values_of(vals@) + Seq::<Value>::empty() =~= values_of(vals@));
    }
    Ok((vals, q))
}

/// Parses elements for as long as they parse; stops at the first that fails
/// without consuming input, and fails on one that fails after consuming.
pub fn many<'i, T: Decode<'i>>(input: &'i [u8], pos: usize) -> (r: Result<(Vec<T>, usize), bool>)
    requires
        pos <= input@.len(),
    ensures
        agrees(r, parse_value(Schema::Many(Box::new(T::parse_schema())), input@, pos as int)),
        r matches Ok((_, p)) ==> pos <= p <= input@.len(),
{
    let ghost e = T::parse_schema();
    let ghost s = input@;
    let mut vals: Vec<T> = Vec::new();
    let mut q = pos;
    proof {
        assert(values_of(vals@) =~= Seq::<Value>::empty());
        match parse_many(e, s, pos as int) {
            Parsed::Done(Value::List(vs), _) => {
                assert(Seq::<Value>::empty() + vs =~= vs);
            },
            _ => {},
        }
    }
    loop
        invariant
            pos <= q <= input@.len(),
            s == input@,
            e == T::parse_schema(),
            prepend(Seq::empty(), parse_many(e, s, pos as int)) == prepend(
                values_of(vals@),
                parse_many(e, s, q as int),
            ),
        decreases input@.len() - q,
    {
        match T::parse_at(input, q) {
            Ok((x, q2)) => {
                if q2 <= q {
                    proof { assert(values_of(vals@) + Seq::<Value>::empty() =~= values_of(vals@)); }
                    return Ok((vals, q));
                }
                let ghost before = values_of(vals@);
                vals.push(x);
                proof {
                    assert(values_of(vals@) =~= before.push(x.value()));
                    let rest = parse_many(e, s, q2 as int);
                    match rest {
                        Parsed::Done(Value::List(vs), _) => {
                            assert(before + (seq![x.value()] + vs) =~= before.push(x.value()) + vs);
                        },
                        _ => {},
                    }
                }
                q = q2;
            },
            Err(c) => {
                if c {
                    return Err(true);
                } else {
                    proof { assert(values_of(vals@) + Seq::<Value>::empty() =~= values_of(vals@)); }
                    return Ok((vals, q));
                }
            },
        }
    }
}

/// One element, or `None` when it fails without consuming input.
pub fn optional<'i, T: Decode<'i>>(input: &'i [u8], pos: usize) -> (r: Result<(Option<T>, usize), bool>)
    requires
        pos <= input@.len(),
    ensures
        agrees(r, parse_value(Schema::Optional(Box::new(T::parse_schema())), input@, pos as int)),
        r matches Ok((_, p)) ==> pos <= p <= input@.len(),
{
    match T::parse_at(input, pos) {
        Ok((x, p)) => Ok((Some(x), p)),
        Err(c) => if c {
            Err(true)
        } else {
            Ok((None, pos))
        },
    }
}

impl<'i> Decode<'i> for i32 {
    open spec fn parse_schema() -> Schema {
        Schema::I32
    }

    fn parse_at(input: &'i [u8], pos: usize) -> (r: Result<(Self, usize), bool>) {
        be_i32(input, pos)
    }
}

impl<'i> Decode<'i> for &'i str {
    open spec fn parse_schema() -> Schema {
        Schema::Str
    }

    fn parse_at(input: &'i [u8], pos: usize) -> (r: Result<(Self, usize), bool>) {
        string(input, pos)
    }
}

impl<'i> Decode<'i> for &'i [u8] {
    open spec fn parse_schema() -> Schema {
        Schema::Bytes
    }

    fn parse_at(input: &'i [u8], pos: usize) -> (r: Result<(Self, usize), bool>) {
        bytes(input, pos)
    }
}

/// `r` is what parsing `sch` at the start of `s` gives: the value with the
/// input that follows it, or nothing when parsing fails.
pub open spec fn parsed_prefix<'a, T: Wire>(r: Option<(T, &'a [u8])>, sch: Schema, s: Seq<u8>) -> bool {
    match parse_value(sch, s, 0) {
        Parsed::Done(v, p) => r matches Some((t, rest)) && t.value() == v && rest@ == s.subrange(
            p,
            s.len() as int,
        ),
        Parsed::Failed(_) => r is None,
    }
}

/// Parses a `T` at the start of `input`; gives it with the rest of the input.
pub fn parse_prefix<'i, T: Decode<'i>>(input: &'i [u8]) -> (r: Option<(T, &'i [u8])>)
    ensures
        parsed_prefix(r, T::parse_schema(), input@),
{
    match T::parse_at(input, 0) {
        Ok((x, p)) => Some((x, slice_subrange(input, p, input.len()))),
        Err(_) => None,
    }
}

/// Parsing gives back any well-formed value from its encoding, for a type
/// whose wire format reads as it writes and counts all of its lists.
pub proof fn lemma_decode_encoded<'i, T: Decode<'i> + Encode>(x: T, s: Seq<u8>)
    requires
        T::parse_schema() == T::encode_schema(),
        framed(T::parse_schema()),
        wf_value(T::encode_schema(), x.value()),
        encode_value(T::encode_schema(), x.value()).len() <= s.len(),
        s.subrange(0, encode_value(T::encode_schema(), x.value()).len() as int) == encode_value(
            T::encode_schema(),
            x.value(),
        ),
    ensures
        parse_value(T::parse_schema(), s, 0) == Parsed::Done(
            x.value(),
            encode_value(T::encode_schema(), x.value()).len() as int,
        ),
{
    lemma_parse_encode(T::encode_schema(), x.value(), s, 0);
}

/// `integer_encoding::VarInt::decode_var` for `i32`: the value of the
/// variable-length integer at the start of `src` and the number of bytes it
/// read. The contract states both exactly; `src` is kept to ten bytes, past
/// which the crate's accumulator overflows.
#[verifier::external_body]
fn decode_var_i32(src: &[u8]) -> (r: (i32, usize))
    requires
        src@.len() <= 10,
    ensures
        r.0 == varint_decode(src@),
        r.1 == varint_len(src@),
{
    <i32 as integer_encoding::VarInt>::decode_var(src)
}

/// `integer_encoding::VarInt::encode_var_vec` for `i32`: the zigzag LEB128
/// bytes of `v`, as the contract states.
#[verifier::external_body]
fn encode_var_vec_i32(v: i32) -> (r: Vec<u8>)
    ensures
        r@ == varint_bytes(v as int),
{
    integer_encoding::VarInt::encode_var_vec(v)
}

/// `integer_encoding::VarInt::required_space` for `i32`: the number of bytes
/// of the encoding of `v`, as the contract states.
#[verifier::external_body]
pub(crate) fn required_space(v: i32) -> (n: usize)
    ensures
        n == varint_bytes(v as int).len(),
{
    integer_encoding::VarInt::required_space(v)
}

/// Reads a variable-length `i32`; never fails. At most ten bytes are read.
pub fn varint(input: &[u8], pos: usize) -> (r: Result<(i32, usize), bool>)
    requires
        pos <= input@.len(),
    ensures
        agrees(r, parse_value(Schema::VarInt, input@, pos as int)),
        r matches Ok((_, p)) ==> pos <= p <= input@.len(),
{
    let end = if input.len() - pos >= 10 {
        pos + 10
    } else {
        input.len()
    };
    let w = slice_subrange(input, pos, end);
    proof {
        assert(w@ == varint_window(input@, pos as int));
        lemma_varint_len_bound(w@);
    }
    let (v, n) = decode_var_i32(w);
    Ok((v, pos + n))
}

/// A variable-length integer takes no more bytes than there are.
pub proof fn lemma_varint_len_bound(s: Seq<u8>)
    ensures
        varint_len(s) <= s.len(),
    decreases s.len(),
{
    if s.len() > 0 {
        lemma_varint_len_bound(s.drop_first());
    }
}

/// Appends the variable-length encoding of `v`.
pub fn encode_var_i32(input: i32, writer: &mut Vec<u8>)
    ensures
        final(writer)@ == old(writer)@ + varint_bytes(input as int),
{
    let b = encode_var_vec_i32(input);
    put_bytes(writer, b.as_slice());
}

/// A variable-length count of bytes, then the bytes.
fn var_span<'i>(input: &'i [u8], pos: usize) -> (r: Result<(&'i [u8], usize), bool>)
    requires
        pos <= input@.len(),
    ensures
        match parse_var_delimited(input@, pos as int, false) {
            Parsed::Done(Value::Bytes(b), q) => r matches Ok((x, n)) && x@ == b && n == q,
            Parsed::Done(_, _) => false,
            Parsed::Failed(c) => r matches Err(d) && d == c,
        },
        r matches Ok((_, p)) ==> pos <= p <= input@.len(),
{
    let (n, p) = match varint(input, pos) {
        Ok(x) => x,
        Err(_) => return Err(false),
    };
    if n < 0 {
        return Err(true);
    }
    if n as usize > input.len() - p {
        return Err(true);
    }
    let len = n as usize;
    Ok((slice_subrange(input, p, p + len), p + len))
}

/// Reads a variable-length count of bytes, then the bytes.
pub fn varbytes<'i>(input: &'i [u8], pos: usize) -> (r: Result<(&'i [u8], usize), bool>)
    requires
        pos <= input@.len(),
    ensures
        agrees(r, parse_value(Schema::VarBytes, input@, pos as int)),
        r matches Ok((_, p)) ==> pos <= p <= input@.len(),
{
    var_span(input, pos)
}

/// Reads a variable-length count of bytes, then that many UTF-8 bytes.
pub fn varstring<'i>(input: &'i [u8], pos: usize) -> (r: Result<(&'i str, usize), bool>)
    requires
        pos <= input@.len(),
    ensures
        agrees(r, parse_value(Schema::VarStr, input@, pos as int)),
        r matches Ok((_, p)) ==> pos <= p <= input@.len(),
{
    match var_span(input, pos) {
        Ok((b, p)) => match str_from_utf8(b) {
            Some(s) => Ok((s, p)),
            None => Err(true),
        },
        Err(c) => Err(c),
    }
}

/// A variable-length count, then that many elements; a negative count gives
/// an empty vector.
pub fn vararray<'i, T: Decode<'i>>(input: &'i [u8], pos: usize) -> (r: Result<(Vec<T>, usize), bool>)
    requires
        pos <= input@.len(),
    ensures
        agrees(r, parse_value(Schema::VarArray(Box::new(T::parse_schema())), input@, pos as int)),
        r matches Ok((_, p)) ==> pos <= p <= input@.len(),
{
    let ghost e = T::parse_schema();
    let ghost s = input@;
    let (n, p0) = match varint(input, pos) {
        Ok(x) => x,
        Err(_) => return Err(true),
    };
    if n < 0 {
        proof { assert(values_of(Seq::<T>::empty()) =~= Seq::<Value>::empty()); }
        return Ok((Vec::new(), p0));
    }
    let count = n as usize;
    let mut vals: Vec<T> = Vec::new();
    let mut q = p0;
    let mut i: usize = 0;
    proof {
        assert(values_of(vals@) =~= Seq::<Value>::empty());
        match parse_count(e, count as nat, s, p0 as int) {
            Parsed::Done(Value::List(vs), _) => {
                assert(Seq::<Value>::empty() + vs =~= vs);
            },
            _ => {},
        }
    }
    while i < count
        invariant
            i <= count,
            pos <= p0 <= q <= input@.len(),
            s == input@,
            e == T::parse_schema(),
            parse_varint(s, pos as int) == Parsed::Done(Value::Int(count as int), p0 as int),
            prepend(Seq::empty(), parse_count(e, count as nat, s, p0 as int)) == prepend(
                values_of(vals@),
                parse_count(e, (count - i) as nat, s, q as int),
            ),
        decreases count - i,
    {
        match T::parse_at(input, q) {
            Ok((x, q2)) => {
                let ghost before = values_of(vals@);
                vals.push(x);
                proof {
                    assert(values_of(vals@) =~= before.push(x.value()));
                    let rest = parse_count(e, (count - i - 1) as nat, s, q2 as int);
                    match rest {
                        Parsed::Done(Value::List(vs), _) => {
                            assert(before + (seq![x.value()] + vs) =~= before.push(x.value()) + vs);
                        },
                        _ => {},
                    }
                }
                q = q2;
                i = i + 1;
            },
            Err(_) => {
                proof { lemma_parse_count_shape(e, count as nat, s, p0 as int); }
                return Err(true);
            },
        }
    }
    proof {
        assert(values_of(vals@) + Seq::<Value>::empty() =~= values_of(vals@));
        match parse_count(e, count as nat, s, p0 as int) {
            Parsed::Done(Value::List(vs), _) => {
                assert(Seq::<Value>::empty() + vs =~= vs);
            },
            _ => {},
        }
    }
    Ok((vals, q))
}


/// `buf` with the bytes at `pos` replaced by `bytes`.
pub open spec fn overwrite(buf: Seq<u8>, pos: int, bytes: Seq<u8>) -> Seq<u8> {
    buf.subrange(0, pos) + bytes + buf.subrange(pos + bytes.len(), buf.len() as int)
}

/// A four-byte slot in a buffer, written as zeros now and filled in later,
/// once what follows it is known.
pub struct Reservation {
    start: usize,
}

impl Reservation {
    /// Where the slot starts in the buffer.
    pub closed spec fn pos(&self) -> nat {
        self.start as nat
    }

    /// Where the slot ends: the first byte after it.
    pub fn end(&self) -> (e: usize)
        requires
            self.pos() + 4 <= usize::MAX,
        ensures
            e == self.pos() + 4,
    {
        self.start + 4
    }

    /// Writes the bytes counted after the slot into it, as a big-endian
    /// `i32`, and gives that count.
    pub fn fill_len(self, buf: &mut Vec<u8>) -> (length: usize)
        requires
            self.pos() + 4 <= old(buf)@.len(),
            old(buf)@.len() - (self.pos() + 4) <= i32::MAX,
        ensures
            length == old(buf)@.len() - (self.pos() + 4),
            final(buf)@ == overwrite(old(buf)@, self.pos() as int, int_bytes(length as int, 4)),
    {
        let length = buf.len() - self.end();
        let mut bytes: Vec<u8> = Vec::new();
        proof { lemma_pow256_values(); }
        put_int(&mut bytes, length as i64, 4);
        proof { lemma_int_bytes_len(length as int, 4); }
        self.fill(buf, bytes.as_slice());
        length
    }

    /// Writes `value` into the slot.
    pub fn fill(self, buf: &mut Vec<u8>, value: &[u8])
        requires
            value@.len() == 4,
            self.pos() + 4 <= old(buf)@.len(),
        ensures
            final(buf)@ == overwrite(old(buf)@, self.pos() as int, value@),
    {
        let mut i: usize = 0;
        while i < 4
            invariant
                i <= 4,
                value@.len() == 4,
                self.start + 4 <= old(buf)@.len(),
                buf@.len() == old(buf)@.len(),
                self.start + 4 <= buf.len(),
                buf@ == overwrite(old(buf)@, self.start as int, value@.subrange(0, i as int) + old(buf)@.subrange(
                    self.start + i,
                    self.start + 4,
                )),
            decreases 4 - i,
        {
            let ghost before = buf@;
            buf.set(self.start + i, value[i]);
            proof {
                let o = old(buf)@;
                let st = self.start as int;
                assert(value@.subrange(0, i + 1) + o.subrange(st + i + 1, st + 4) =~= (value@.subrange(
                    0,
                    i as int,
                ) + o.subrange(st + i, st + 4)).update(i as int, value@[i as int]));
                assert(buf@ =~= overwrite(o, st, value@.subrange(0, i + 1) + o.subrange(st + i + 1, st + 4)));
            }
            i = i + 1;
        }
        proof {
            let o = old(buf)@;
            let st = self.start as int;
            assert(value@.subrange(0, 4) + o.subrange(st + 4, st + 4) =~= value@);
        }
    }
}

/// Reserves a four-byte slot at the end of `writer`, written as zeros.
pub fn reserve(writer: &mut Vec<u8>) -> (r: Reservation)
    ensures
        r.pos() == old(writer)@.len(),
        final(writer)@ == old(writer)@ + int_bytes(0, 4),
{
    let start = writer.len();
    put_int(writer, 0, 4);
    Reservation { start }
}

} // verus!
