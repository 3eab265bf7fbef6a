//! A connection to a broker: how a request is framed, and how the response
//! to it is read. Sending and receiving the bytes is left to the caller,
//! which drives the connection.
use vstd::prelude::*;
use crate::api_key::ApiKey;
use crate::codec::{Wire, Encode, Decode, reserve, be_i32};
use crate::parser::request_header::RequestHeader;
use crate::parser::response_header::ResponseHeader;
use crate::wire::{
    Schema, Value, Parsed, parse_value, parse_int, encode_value, wf_value, int_bytes, framed,
    lemma_pow256_values, lemma_int_bytes_len, lemma_int_roundtrip, lemma_parse_encode,
};

verus! {

/// A connection, the buffer through which requests and responses go, and
/// the number of the next request.
pub struct Client<I> {
    io: I,
    buf: Vec<u8>,
    correlation_id: i32,
}

/// Why the response in the buffer could not be read.
#[derive(Clone, Copy, Debug, PartialEq, Eq, Structural)]
pub enum ResponseError {
    /// It does not start with a valid response header.
    InvalidHeader,
    /// What follows the header is not a valid response.
    InvalidResponse,
    /// Bytes are left after the response: this many.
    Remaining(usize),
}

/// The header of a request: its API key and version, its correlation id,
/// and no client id.
pub open spec fn request_header_bytes(api_key: ApiKey, api_version: i16, correlation_id: i32) -> Seq<u8> {
    int_bytes(api_key.0 as int, 2) + int_bytes(api_version as int, 2) + int_bytes(correlation_id as int, 4)
        + int_bytes(-1, 2)
}

/// A request as it is sent: the length of the rest, then its header and its
/// body.
pub open spec fn request_frame(header: Seq<u8>, body: Seq<u8>) -> Seq<u8> {
    int_bytes((header.len() + body.len()) as int, 4) + header + body
}

/// What reading a response of schema `sch` from `buf` gives: after the four
/// bytes of length, a response header, then the response, which must end
/// the buffer.
pub open spec fn read_response(sch: Schema, buf: Seq<u8>) -> Result<Value, ResponseError> {
    match parse_value(ResponseHeader::schema(), buf, 4) {
        Parsed::Done(_, p) => match parse_value(sch, buf, p) {
            Parsed::Done(v, q) => if q == buf.len() {
                Ok(v)
            } else {
                Err(ResponseError::Remaining((buf.len() - q) as usize))
            },
            Parsed::Failed(_) => Err(ResponseError::InvalidResponse),
        },
        Parsed::Failed(_) => Err(ResponseError::InvalidHeader),
    }
}

impl<I> Client<I> {
    /// The connection.
    pub closed spec fn spec_io(&self) -> I {
        self.io
    }

    /// The bytes in the buffer.
    pub closed spec fn spec_buf(&self) -> Seq<u8> {
        self.buf@
    }

    /// The correlation id of the next request.
    pub closed spec fn spec_correlation_id(&self) -> i32 {
        self.correlation_id
    }

    /// A client over an established connection: an empty buffer, and the
    /// first request numbered 0.
    pub fn new(io: I) -> (c: Self)
        ensures
            c.spec_io() == io,
            c.spec_buf() == Seq::<u8>::empty(),
            c.spec_correlation_id() == 0,
    {
        Client { io, buf: Vec::new(), correlation_id: 0 }
    }

    /// The correlation id of the next request.
    pub fn correlation_id(&self) -> (r: i32)
        ensures
            r == self.spec_correlation_id(),
    {
        self.correlation_id
    }

    /// The bytes in the buffer.
    pub fn buf(&self) -> (r: &[u8])
        ensures
            r@ == self.spec_buf(),
    {
        self.buf.as_slice()
    }

    /// The connection and the buffer, to read from the one into the other.
    pub fn parts(&mut self) -> (r: (&mut I, &mut Vec<u8>))
        ensures
            *r.0 == old(self).spec_io(),
            r.1@ == old(self).spec_buf(),
            final(self).spec_io() == *final(r.0),
            final(self).spec_buf() == final(r.1)@,
            final(self).spec_correlation_id() == old(self).spec_correlation_id(),
    {
        (&mut self.io, &mut self.buf)
    }

    /// Puts a request in the buffer, in place of what it held: the length of
    /// the rest, a header with the API key and version and the next
    /// correlation id, then the request. The correlation id moves on by one.
    /// A frame whose length does not fit an `i32` is left unfinished, its
    /// length given as the error.
    pub fn frame_request<R: Encode>(&mut self, request: &R, api_key: ApiKey, api_version: i16) -> (r: Result<(), usize>)
        requires
            old(self).spec_correlation_id() < i32::MAX,
            wf_value(R::encode_schema(), request.value()),
        ensures
            ({
                let header = request_header_bytes(api_key, api_version, old(self).spec_correlation_id());
                let body = encode_value(R::encode_schema(), request.value());
                &&& r is Ok <==> header.len() + body.len() <= i32::MAX
                &&& r is Ok ==> final(self).spec_buf() == request_frame(header, body)
                &&& r matches Err(n) ==> n == header.len() + body.len() && final(self).spec_buf() == int_bytes(0, 4)
                    + header + body
            }),
            final(self).spec_correlation_id() == old(self).spec_correlation_id() + 1,
            final(self).spec_io() == old(self).spec_io(),
    {
        self.buf.clear();
        let header = RequestHeader {
            api_key,
            api_version,
            correlation_id: self.correlation_id,
            client_id: None,
        };
        let ghost hb = request_header_bytes(api_key, api_version, self.correlation_id);
        let ghost body = encode_value(R::encode_schema(), request.value());
        proof {
            header.lemma_encoding();
            crate::wire::lemma_pow256_values();
            crate::wire::lemma_int_bytes_len(api_key.0 as int, 2);
            crate::wire::lemma_int_bytes_len(api_version as int, 2);
            crate::wire::lemma_int_bytes_len(header.correlation_id as int, 4);
            crate::wire::lemma_int_bytes_len(-1, 2);
            crate::wire::lemma_int_bytes_len(0, 4);
            let fs = RequestHeader::encoded_fields();
            let vs = seq![api_key.value(), api_version.value(), header.correlation_id.value(), Value::Null];
            assert(header.value() == Value::Fields(vs));
            assert forall|k: int| 0 <= k < vs.len() implies wf_value(fs[k], #[trigger] vs[k]) by {
                if k == 0 {} else if k == 1 {} else if k == 2 {} else {}
            }
        }
        self.correlation_id = self.correlation_id + 1;
        let len_reservation = reserve(&mut self.buf);
        header.encode(&mut self.buf);
        request.encode(&mut self.buf);
        assert(self.buf@ =~= int_bytes(0, 4) + hb + body);
        let length = self.buf.len() - len_reservation.end();
        if length > 2147483647 {
            return Err(length);
        }
        let filled = len_reservation.fill_len(&mut self.buf);
        proof {
            crate::wire::lemma_int_bytes_len(filled as int, 4);
            assert(filled == hb.len() + body.len());
        }
        assert(self.buf@ =~= request_frame(hb, body));
        Ok(())
    }

    /// Empties the buffer, to read a response into it.
    pub fn start_response(&mut self)
        ensures
            final(self).spec_buf() == Seq::<u8>::empty(),
            final(self).spec_io() == old(self).spec_io(),
            final(self).spec_correlation_id() == old(self).spec_correlation_id(),
    {
        self.buf.clear();
    }

    /// The length that the response in the buffer announces, once the
    /// buffer holds its four bytes.
    pub fn response_len(&self) -> (r: Option<i32>)
        ensures
            match parse_int(self.spec_buf(), 0, 4) {
                Parsed::Done(Value::Int(n), _) => r == Some(n as i32),
                _ => r is None,
            },
            r is Some <==> self.spec_buf().len() >= 4,
    {
        match be_i32(self.buf.as_slice(), 0) {
            Ok((n, _)) => Some(n),
            Err(_) => None,
        }
    }

    /// How many more bytes the buffer needs to hold the whole response: its
    /// four bytes of length first, then as many bytes as that length
    /// announces (zero once it holds them all). A negative announced length
    /// is given as the error.
    pub fn missing(&self) -> (r: Result<usize, i32>)
        ensures
            self.spec_buf().len() < 4 ==> r == Ok::<usize, i32>((4 - self.spec_buf().len()) as usize),
            self.spec_buf().len() >= 4 ==> match parse_int(self.spec_buf(), 0, 4) {
                Parsed::Done(Value::Int(n), _) => if n < 0 {
                    r == Err::<usize, i32>(n as i32)
                } else if self.spec_buf().len() >= n + 4 {
                    r == Ok::<usize, i32>(0)
                } else {
                    r == Ok::<usize, i32>((n + 4 - self.spec_buf().len()) as usize)
                },
                _ => false,
            },
    {
        let have = self.buf.len();
        match be_i32(self.buf.as_slice(), 0) {
            Err(_) => Ok(4 - have),
            Ok((n, _)) => {
                if n < 0 {
                    Err(n)
                } else {
                    let want = n as usize + 4;
                    if have >= want {
                        Ok(0)
                    } else {
                        Ok(want - have)
                    }
                }
            },
        }
    }

    /// Reads the response in the buffer: after the four bytes of length, a
    /// response header, then a `T` that must end the buffer.
    pub fn parse_response<'i, T: Decode<'i>>(&'i self) -> (r: Result<T, ResponseError>)
        requires
            self.spec_buf().len() >= 4,
        ensures
            match read_response(T::parse_schema(), self.spec_buf()) {
                Ok(v) => r matches Ok(t) && t.value() == v,
                Err(e) => r == Err::<T, ResponseError>(e),
            },
    {
        let input = self.buf.as_slice();
        match ResponseHeader::parse_at(input, 4) {
            Err(_) => Err(ResponseError::InvalidHeader),
            Ok((_, p)) => match T::parse_at(input, p) {
                Err(_) => Err(ResponseError::InvalidResponse),
                Ok((t, q)) => {
                    if q == input.len() {
                        Ok(t)
                    } else {
                        Err(ResponseError::Remaining(input.len() - q))
                    }
                },
            },
        }
    }
}

/// What a broker reads of a framed request: the length in front counts the
/// bytes after it, the header reads back with the API key, version and
/// correlation id that were written and no client id, and a request that
/// can be written reads back as itself, ending the frame.
pub proof fn lemma_frame_reads_back(api_key: ApiKey, api_version: i16, correlation_id: i32, sch: Schema, v: Value)
    requires
        framed(sch),
        wf_value(sch, v),
        10 + encode_value(sch, v).len() <= i32::MAX,
    ensures
        ({
            let f = request_frame(request_header_bytes(api_key, api_version, correlation_id), encode_value(sch, v));
            &&& parse_int(f, 0, 4) == Parsed::Done(Value::Int(f.len() - 4), 4)
            &&& parse_value(RequestHeader::schema(), f, 4) == Parsed::Done(
                Value::Fields(
                    seq![Value::Int(api_key.0 as int), Value::Int(api_version as int), Value::Int(correlation_id as int), Value::Null],
                ),
                14,
            )
            &&& parse_value(sch, f, 14) == Parsed::Done(v, f.len() as int)
        }),
{
    let hb = request_header_bytes(api_key, api_version, correlation_id);
    let body = encode_value(sch, v);
    let f = request_frame(hb, body);
    let header = RequestHeader { api_key, api_version, correlation_id, client_id: None };
    let hv = header.value();
    header.lemma_encoding();
    RequestHeader::lemma_wire_format();
    lemma_pow256_values();
    lemma_int_bytes_len(api_key.0 as int, 2);
    lemma_int_bytes_len(api_version as int, 2);
    lemma_int_bytes_len(correlation_id as int, 4);
    lemma_int_bytes_len(-1, 2);
    lemma_int_bytes_len((hb.len() + body.len()) as int, 4);
    let fs = RequestHeader::encoded_fields();
    let vs = seq![api_key.value(), api_version.value(), correlation_id.value(), Value::Null];
    assert(hv == Value::Fields(vs));
    assert forall|k: int| 0 <= k < vs.len() implies wf_value(fs[k], #[trigger] vs[k]) by {
        if k == 0 {} else if k == 1 {} else if k == 2 {} else {}
    }
    assert(encode_value(RequestHeader::schema(), hv) == hb);
    assert(f.subrange(0, 4) =~= int_bytes(f.len() - 4, 4));
    lemma_int_roundtrip(f, 0, f.len() - 4, 4);
    assert(f.subrange(4, 14) =~= hb);
    lemma_parse_encode(RequestHeader::schema(), hv, f, 4);
    assert(f.subrange(14, f.len() as int) =~= body);
    lemma_parse_encode(sch, v, f, 14);
}

} // verus!
