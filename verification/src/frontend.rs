//! The frontend message kinds and their encoders.
//!
//! Each message kind is a struct holding the fields of one protocol
//! message. Its `write` method appends exactly one complete frame to the
//! caller's buffer, or fails and leaves the buffer as it was. The byte
//! layout of every frame is pinned down by the `spec_encode` model.

use crate::wire::{
    begin_frame, end_frame, has_zero, i32_from_usize, lemma_frame_length, lemma_frame_shape,
    push_bytes, put_i16_be, put_i32_be, put_u16_be, put_u32_be, spec_cstr, spec_frame,
    spec_i16_be, spec_i32_be, spec_u16_be, spec_u32_be, spec_u32_from_be, u16_from_usize,
    write_cstr, EncodeError,
};
use vstd::prelude::*;
use vstd::string::StringSliceAdditionalSpecFns;

verus! {

/// A prepared-statement parameter type identifier: an opaque 32-bit
/// unsigned value supplied by a type catalog outside this crate.
pub type Oid = u32;

/// The tag byte of a bind message, ASCII 'B'.
pub const TAG_BIND: u8 = 66;

/// The tag byte of a close message, ASCII 'C'.
pub const TAG_CLOSE: u8 = 67;

/// The tag byte of a describe message, ASCII 'D'.
pub const TAG_DESCRIBE: u8 = 68;

/// The tag byte of an execute message, ASCII 'E'.
pub const TAG_EXECUTE: u8 = 69;

/// The tag byte of a parse message, ASCII 'P'.
pub const TAG_PARSE: u8 = 80;

/// The tag byte of a copy-done message, ASCII 'c'.
pub const TAG_COPY_DONE: u8 = 99;

/// The tag byte of a copy-data message, ASCII 'd'.
pub const TAG_COPY_DATA: u8 = 100;

/// The tag byte of a copy-fail message, ASCII 'f'.
pub const TAG_COPY_FAIL: u8 = 102;

/// A frontend protocol message that can append its one frame to a buffer.
pub trait Message {
    /// The exact frame this message encodes to, or the error its encoding
    /// fails with.
    spec fn spec_encode(&self) -> Result<Seq<u8>, EncodeError>;

    /// Appends this message's complete frame to `buf`, or fails with the
    /// first field's error. Failure is all-or-nothing by design: any
    /// fragment written before the failing field is removed again, so a
    /// failed call never leaves a truncated frame behind and the buffer's
    /// earlier contents stay transmittable.
    fn write(&self, buf: &mut Vec<u8>) -> (r: Result<(), EncodeError>)
        ensures
            (match self.spec_encode() {
                Ok(frame) => r == Ok::<(), EncodeError>(()) && final(buf)@ == old(buf)@ + frame,
                Err(e) => r == Err::<(), EncodeError>(e) && final(buf)@ == old(buf)@,
            }),
    ;
}

/// The concatenated big-endian layouts of a sequence of 16-bit codes.
pub open spec fn spec_i16s_be(xs: Seq<i16>) -> Seq<u8>
    decreases xs.len(),
{
    if xs.len() == 0 {
        Seq::empty()
    } else {
        spec_i16s_be(xs.drop_last()) + spec_i16_be(xs.last())
    }
}

/// The concatenated big-endian layouts of a sequence of 32-bit identifiers.
pub open spec fn spec_u32s_be(xs: Seq<u32>) -> Seq<u8>
    decreases xs.len(),
{
    if xs.len() == 0 {
        Seq::empty()
    } else {
        spec_u32s_be(xs.drop_last()) + spec_u32_be(xs.last())
    }
}

pub proof fn lemma_i16s_be_snoc(xs: Seq<i16>, i: int)
    requires
        0 <= i < xs.len(),
    ensures
        spec_i16s_be(xs.take(i + 1)) == spec_i16s_be(xs.take(i)) + spec_i16_be(xs[i]),
{
    assert(xs.take(i + 1).drop_last() =~= xs.take(i));
}

pub proof fn lemma_u32s_be_snoc(xs: Seq<u32>, i: int)
    requires
        0 <= i < xs.len(),
    ensures
        spec_u32s_be(xs.take(i + 1)) == spec_u32s_be(xs.take(i)) + spec_u32_be(xs[i]),
{
    assert(xs.take(i + 1).drop_last() =~= xs.take(i));
}

/// Requests that the server cancel the query a sibling connection is
/// running. This is the one untagged message kind: its frame starts with
/// the length field, and a fixed magic value inside the payload tells it
/// apart from ordinary startup messages.
pub struct CancelRequest {
    pub process_id: i32,
    pub secret_key: i32,
}

/// The magic value that opens every cancel-request payload.
pub const CANCEL_REQUEST_CODE: i32 = 80877102;

impl CancelRequest {
    /// The 12 payload bytes: the magic value, the process id, the secret key.
    pub open spec fn spec_payload(&self) -> Seq<u8> {
        spec_i32_be(CANCEL_REQUEST_CODE) + spec_i32_be(self.process_id) + spec_i32_be(
            self.secret_key,
        )
    }
}

impl Message for CancelRequest {
    open spec fn spec_encode(&self) -> Result<Seq<u8>, EncodeError> {
        Ok(spec_frame(Seq::empty(), self.spec_payload()))
    }

    fn write(&self, buf: &mut Vec<u8>) -> (r: Result<(), EncodeError>) {
        let ghost buf0 = buf@;
        let base = begin_frame(buf);
        put_i32_be(buf, CANCEL_REQUEST_CODE);
        put_i32_be(buf, self.process_id);
        put_i32_be(buf, self.secret_key);
        proof {
            assert(buf@ =~= buf0 + seq![0u8, 0u8, 0u8, 0u8] + self.spec_payload());
            lemma_frame_shape(buf0, self.spec_payload());
        }
        let r = end_frame(buf, base);
        proof {
            assert(r == Ok::<(), EncodeError>(()));
            assert(buf@ =~= buf0 + spec_frame(Seq::empty(), self.spec_payload()));
        }
        r
    }
}

/// Signals the end of a copy-in data transfer. Its frame is the tag and
/// the length field alone: the payload is empty.
pub struct CopyDone;

impl Message for CopyDone {
    open spec fn spec_encode(&self) -> Result<Seq<u8>, EncodeError> {
        Ok(spec_frame(seq![TAG_COPY_DONE], Seq::empty()))
    }

    fn write(&self, buf: &mut Vec<u8>) -> (r: Result<(), EncodeError>) {
        let ghost buf0 = buf@;
        buf.push(TAG_COPY_DONE);
        let base = begin_frame(buf);
        proof {
            assert(buf@ =~= buf0 + seq![TAG_COPY_DONE] + seq![0u8, 0u8, 0u8, 0u8] + Seq::<u8>::empty());
            lemma_frame_shape(buf0 + seq![TAG_COPY_DONE], Seq::empty());
        }
        let r = end_frame(buf, base);
        proof {
            assert(r == Ok::<(), EncodeError>(()));
            assert(buf@ =~= buf0 + spec_frame(seq![TAG_COPY_DONE], Seq::empty()));
        }
        r
    }
}

/// Carries one block of raw copy-in data; the payload is the caller's
/// bytes, passed through unmodified.
pub struct CopyData<'a> {
    pub data: &'a [u8],
}

impl<'a> CopyData<'a> {
    fn encode_body(&self, buf: &mut Vec<u8>) -> (r: Result<(), EncodeError>)
        ensures
            (match self.spec_encode() {
                Ok(frame) => r == Ok::<(), EncodeError>(()) && final(buf)@ == old(buf)@ + frame,
                Err(e) => r == Err::<(), EncodeError>(e) && final(buf)@.len() >= old(buf)@.len()
                    && final(buf)@.subrange(0, old(buf)@.len() as int) == old(buf)@,
            }),
    {
        let ghost buf0 = buf@;
        buf.push(TAG_COPY_DATA);
        let base = begin_frame(buf);
        push_bytes(buf, self.data);
        proof {
            assert(buf@ =~= buf0 + seq![TAG_COPY_DATA] + seq![0u8, 0u8, 0u8, 0u8] + self.data@);
            lemma_frame_shape(buf0 + seq![TAG_COPY_DATA], self.data@);
        }
        let r = end_frame(buf, base);
        proof {
            if self.data@.len() + 4 <= i32::MAX {
                assert(buf@ =~= buf0 + spec_frame(seq![TAG_COPY_DATA], self.data@));
            } else {
                assert(buf@.subrange(0, buf0.len() as int) =~= buf0);
            }
        }
        r
    }
}

impl<'a> Message for CopyData<'a> {
    open spec fn spec_encode(&self) -> Result<Seq<u8>, EncodeError> {
        if self.data@.len() + 4 > i32::MAX {
            Err(EncodeError::ValueTooLarge)
        } else {
            Ok(spec_frame(seq![TAG_COPY_DATA], self.data@))
        }
    }

    fn write(&self, buf: &mut Vec<u8>) -> (r: Result<(), EncodeError>) {
        let start = buf.len();
        match self.encode_body(buf) {
            Ok(()) => Ok(()),
            Err(e) => {
                buf.truncate(start);
                proof {
                    assert(buf@ =~= old(buf)@);
                }
                Err(e)
            },
        }
    }
}

/// Reports that the client is abandoning a copy-in transfer, with a
/// failure message for the server.
pub struct CopyFail<'a> {
    pub message: &'a str,
}

impl<'a> CopyFail<'a> {
    /// The payload: the failure text as a zero-terminated string.
    pub open spec fn spec_payload(&self) -> Seq<u8> {
        spec_cstr(self.message.spec_bytes())
    }

    fn encode_body(&self, buf: &mut Vec<u8>) -> (r: Result<(), EncodeError>)
        ensures
            (match self.spec_encode() {
                Ok(frame) => r == Ok::<(), EncodeError>(()) && final(buf)@ == old(buf)@ + frame,
                Err(e) => r == Err::<(), EncodeError>(e) && final(buf)@.len() >= old(buf)@.len()
                    && final(buf)@.subrange(0, old(buf)@.len() as int) == old(buf)@,
            }),
    {
        let ghost buf0 = buf@;
        buf.push(TAG_COPY_FAIL);
        let base = begin_frame(buf);
        match write_cstr(buf, self.message) {
            Ok(()) => (),
            Err(e) => {
                proof {
                    assert(buf@.subrange(0, buf0.len() as int) =~= buf0);
                }
                return Err(e);
            },
        }
        let ghost payload = self.spec_payload();
        proof {
            assert(buf@ =~= buf0 + seq![TAG_COPY_FAIL] + seq![0u8, 0u8, 0u8, 0u8] + payload);
            lemma_frame_shape(buf0 + seq![TAG_COPY_FAIL], payload);
        }
        let r = end_frame(buf, base);
        proof {
            if payload.len() + 4 <= i32::MAX {
                assert(buf@ =~= buf0 + spec_frame(seq![TAG_COPY_FAIL], payload));
            } else {
                assert(buf@.subrange(0, buf0.len() as int) =~= buf0);
            }
        }
        r
    }
}

impl<'a> Message for CopyFail<'a> {
    open spec fn spec_encode(&self) -> Result<Seq<u8>, EncodeError> {
        let payload = self.spec_payload();
        if has_zero(self.message.spec_bytes()) {
            Err(EncodeError::EmbeddedNull)
        } else if payload.len() + 4 > i32::MAX {
            Err(EncodeError::ValueTooLarge)
        } else {
            Ok(spec_frame(seq![TAG_COPY_FAIL], payload))
        }
    }

    fn write(&self, buf: &mut Vec<u8>) -> (r: Result<(), EncodeError>) {
        let start = buf.len();
        match self.encode_body(buf) {
            Ok(()) => Ok(()),
            Err(e) => {
                buf.truncate(start);
                proof {
                    assert(buf@ =~= old(buf)@);
                }
                Err(e)
            },
        }
    }
}

/// Asks the server to release a portal or a prepared statement. The
/// variant byte says which of the two the name refers to.
pub struct Close<'a> {
    pub variant: u8,
    pub name: &'a str,
}

impl<'a> Close<'a> {
    /// The payload: the variant byte, then the name as a zero-terminated
    /// string.
    pub open spec fn spec_payload(&self) -> Seq<u8> {
        seq![self.variant] + spec_cstr(self.name.spec_bytes())
    }

    fn encode_body(&self, buf: &mut Vec<u8>) -> (r: Result<(), EncodeError>)
        ensures
            (match self.spec_encode() {
                Ok(frame) => r == Ok::<(), EncodeError>(()) && final(buf)@ == old(buf)@ + frame,
                Err(e) => r == Err::<(), EncodeError>(e) && final(buf)@.len() >= old(buf)@.len()
                    && final(buf)@.subrange(0, old(buf)@.len() as int) == old(buf)@,
            }),
    {
        let ghost buf0 = buf@;
        buf.push(TAG_CLOSE);
        let base = begin_frame(buf);
        buf.push(self.variant);
        match write_cstr(buf, self.name) {
            Ok(()) => (),
            Err(e) => {
                proof {
                    assert(buf@.subrange(0, buf0.len() as int) =~= buf0);
                }
                return Err(e);
            },
        }
        let ghost payload = self.spec_payload();
        proof {
            assert(buf@ =~= buf0 + seq![TAG_CLOSE] + seq![0u8, 0u8, 0u8, 0u8] + payload);
            lemma_frame_shape(buf0 + seq![TAG_CLOSE], payload);
        }
        let r = end_frame(buf, base);
        proof {
            if payload.len() + 4 <= i32::MAX {
                assert(buf@ =~= buf0 + spec_frame(seq![TAG_CLOSE], payload));
            } else {
                assert(buf@.subrange(0, buf0.len() as int) =~= buf0);
            }
        }
        r
    }
}

impl<'a> Message for Close<'a> {
    open spec fn spec_encode(&self) -> Result<Seq<u8>, EncodeError> {
        let payload = self.spec_payload();
        if has_zero(self.name.spec_bytes()) {
            Err(EncodeError::EmbeddedNull)
        } else if payload.len() + 4 > i32::MAX {
            Err(EncodeError::ValueTooLarge)
        } else {
            Ok(spec_frame(seq![TAG_CLOSE], payload))
        }
    }

    fn write(&self, buf: &mut Vec<u8>) -> (r: Result<(), EncodeError>) {
        let start = buf.len();
        match self.encode_body(buf) {
            Ok(()) => Ok(()),
            Err(e) => {
                buf.truncate(start);
                proof {
                    assert(buf@ =~= old(buf)@);
                }
                Err(e)
            },
        }
    }
}

/// Asks the server to describe a portal or a prepared statement. The
/// variant byte says which of the two the name refers to.
pub struct Describe<'a> {
    pub variant: u8,
    pub name: &'a str,
}

impl<'a> Describe<'a> {
    /// The payload: the variant byte, then the name as a zero-terminated
    /// string.
    pub open spec fn spec_payload(&self) -> Seq<u8> {
        seq![self.variant] + spec_cstr(self.name.spec_bytes())
    }

    fn encode_body(&self, buf: &mut Vec<u8>) -> (r: Result<(), EncodeError>)
        ensures
            (match self.spec_encode() {
                Ok(frame) => r == Ok::<(), EncodeError>(()) && final(buf)@ == old(buf)@ + frame,
                Err(e) => r == Err::<(), EncodeError>(e) && final(buf)@.len() >= old(buf)@.len()
                    && final(buf)@.subrange(0, old(buf)@.len() as int) == old(buf)@,
            }),
    {
        let ghost buf0 = buf@;
        buf.push(TAG_DESCRIBE);
        let base = begin_frame(buf);
        buf.push(self.variant);
        match write_cstr(buf, self.name) {
            Ok(()) => (),
            Err(e) => {
                proof {
                    assert(buf@.subrange(0, buf0.len() as int) =~= buf0);
                }
                return Err(e);
            },
        }
        let ghost payload = self.spec_payload();
        proof {
            assert(buf@ =~= buf0 + seq![TAG_DESCRIBE] + seq![0u8, 0u8, 0u8, 0u8] + payload);
            lemma_frame_shape(buf0 + seq![TAG_DESCRIBE], payload);
        }
        let r = end_frame(buf, base);
        proof {
            if payload.len() + 4 <= i32::MAX {
                assert(buf@ =~= buf0 + spec_frame(seq![TAG_DESCRIBE], payload));
            } else {
                assert(buf@.subrange(0, buf0.len() as int) =~= buf0);
            }
        }
        r
    }
}

impl<'a> Message for Describe<'a> {
    open spec fn spec_encode(&self) -> Result<Seq<u8>, EncodeError> {
        let payload = self.spec_payload();
        if has_zero(self.name.spec_bytes()) {
            Err(EncodeError::EmbeddedNull)
        } else if payload.len() + 4 > i32::MAX {
            Err(EncodeError::ValueTooLarge)
        } else {
            Ok(spec_frame(seq![TAG_DESCRIBE], payload))
        }
    }

    fn write(&self, buf: &mut Vec<u8>) -> (r: Result<(), EncodeError>) {
        let start = buf.len();
        match self.encode_body(buf) {
            Ok(()) => Ok(()),
            Err(e) => {
                buf.truncate(start);
                proof {
                    assert(buf@ =~= old(buf)@);
                }
                Err(e)
            },
        }
    }
}

/// Runs a bound portal, returning at most `max_rows` rows; zero asks for
/// all rows.
pub struct Execute<'a> {
    pub portal: &'a str,
    pub max_rows: i32,
}

impl<'a> Execute<'a> {
    /// The payload: the portal name as a zero-terminated string, then the
    /// row limit as a 32-bit signed integer.
    pub open spec fn spec_payload(&self) -> Seq<u8> {
        spec_cstr(self.portal.spec_bytes()) + spec_i32_be(self.max_rows)
    }

    fn encode_body(&self, buf: &mut Vec<u8>) -> (r: Result<(), EncodeError>)
        ensures
            (match self.spec_encode() {
                Ok(frame) => r == Ok::<(), EncodeError>(()) && final(buf)@ == old(buf)@ + frame,
                Err(e) => r == Err::<(), EncodeError>(e) && final(buf)@.len() >= old(buf)@.len()
                    && final(buf)@.subrange(0, old(buf)@.len() as int) == old(buf)@,
            }),
    {
        let ghost buf0 = buf@;
        buf.push(TAG_EXECUTE);
        let base = begin_frame(buf);
        match write_cstr(buf, self.portal) {
            Ok(()) => (),
            Err(e) => {
                proof {
                    assert(buf@.subrange(0, buf0.len() as int) =~= buf0);
                }
                return Err(e);
            },
        }
        put_i32_be(buf, self.max_rows);
        let ghost payload = self.spec_payload();
        proof {
            assert(buf@ =~= buf0 + seq![TAG_EXECUTE] + seq![0u8, 0u8, 0u8, 0u8] + payload);
            lemma_frame_shape(buf0 + seq![TAG_EXECUTE], payload);
        }
        let r = end_frame(buf, base);
        proof {
            if payload.len() + 4 <= i32::MAX {
                assert(buf@ =~= buf0 + spec_frame(seq![TAG_EXECUTE], payload));
            } else {
                assert(buf@.subrange(0, buf0.len() as int) =~= buf0);
            }
        }
        r
    }
}

impl<'a> Message for Execute<'a> {
    open spec fn spec_encode(&self) -> Result<Seq<u8>, EncodeError> {
        let payload = self.spec_payload();
        if has_zero(self.portal.spec_bytes()) {
            Err(EncodeError::EmbeddedNull)
        } else if payload.len() + 4 > i32::MAX {
            Err(EncodeError::ValueTooLarge)
        } else {
            Ok(spec_frame(seq![TAG_EXECUTE], payload))
        }
    }

    fn write(&self, buf: &mut Vec<u8>) -> (r: Result<(), EncodeError>) {
        let start = buf.len();
        match self.encode_body(buf) {
            Ok(()) => Ok(()),
            Err(e) => {
                buf.truncate(start);
                proof {
                    assert(buf@ =~= old(buf)@);
                }
                Err(e)
            },
        }
    }
}

/// Hands the server a query to parse as a named prepared statement, with
/// the caller's choice of parameter type identifiers.
pub struct Parse<'a> {
    pub name: &'a str,
    pub query: &'a str,
    pub param_types: &'a [Oid],
}

impl<'a> Parse<'a> {
    /// The payload: the statement name, the query text, then the counted
    /// list of parameter type identifiers.
    pub open spec fn spec_payload(&self) -> Seq<u8> {
        spec_cstr(self.name.spec_bytes()) + spec_cstr(self.query.spec_bytes()) + spec_u16_be(
            self.param_types@.len() as u16,
        ) + spec_u32s_be(self.param_types@)
    }

    fn encode_body(&self, buf: &mut Vec<u8>) -> (r: Result<(), EncodeError>)
        ensures
            (match self.spec_encode() {
                Ok(frame) => r == Ok::<(), EncodeError>(()) && final(buf)@ == old(buf)@ + frame,
                Err(e) => r == Err::<(), EncodeError>(e) && final(buf)@.len() >= old(buf)@.len()
                    && final(buf)@.subrange(0, old(buf)@.len() as int) == old(buf)@,
            }),
    {
        let ghost buf0 = buf@;
        buf.push(TAG_PARSE);
        let base = begin_frame(buf);
        match write_cstr(buf, self.name) {
            Ok(()) => (),
            Err(e) => {
                proof {
                    assert(buf@.subrange(0, buf0.len() as int) =~= buf0);
                }
                return Err(e);
            },
        }
        match write_cstr(buf, self.query) {
            Ok(()) => (),
            Err(e) => {
                proof {
                    assert(buf@.subrange(0, buf0.len() as int) =~= buf0);
                }
                return Err(e);
            },
        }
        let count = match u16_from_usize(self.param_types.len()) {
            Ok(count) => count,
            Err(e) => {
                proof {
                    assert(buf@.subrange(0, buf0.len() as int) =~= buf0);
                }
                return Err(e);
            },
        };
        put_u16_be(buf, count);
        let ghost pre = buf@;
        let mut i: usize = 0;
        while i < self.param_types.len()
            invariant
                i <= self.param_types@.len(),
                buf@ == pre + spec_u32s_be(self.param_types@.take(i as int)),
            decreases self.param_types@.len() - i,
        {
            put_u32_be(buf, self.param_types[i]);
            i = i + 1;
            proof {
                lemma_u32s_be_snoc(self.param_types@, i - 1);
                assert(buf@ =~= pre + spec_u32s_be(self.param_types@.take(i as int)));
            }
        }
        proof {
            assert(self.param_types@.take(self.param_types@.len() as int) =~= self.param_types@);
            assert(buf@ =~= buf0 + seq![TAG_PARSE] + seq![0u8, 0u8, 0u8, 0u8]
                + self.spec_payload());
            lemma_frame_shape(buf0 + seq![TAG_PARSE], self.spec_payload());
        }
        let r = end_frame(buf, base);
        proof {
            if self.spec_payload().len() + 4 <= i32::MAX {
                assert(buf@ =~= buf0 + spec_frame(seq![TAG_PARSE], self.spec_payload()));
            } else {
                assert(buf@.subrange(0, buf0.len() as int) =~= buf0);
            }
        }
        r
    }
}

impl<'a> Message for Parse<'a> {
    open spec fn spec_encode(&self) -> Result<Seq<u8>, EncodeError> {
        if has_zero(self.name.spec_bytes()) {
            Err(EncodeError::EmbeddedNull)
        } else if has_zero(self.query.spec_bytes()) {
            Err(EncodeError::EmbeddedNull)
        } else if self.param_types@.len() > u16::MAX {
            Err(EncodeError::ValueTooLarge)
        } else if self.spec_payload().len() + 4 > i32::MAX {
            Err(EncodeError::ValueTooLarge)
        } else {
            Ok(spec_frame(seq![TAG_PARSE], self.spec_payload()))
        }
    }

    fn write(&self, buf: &mut Vec<u8>) -> (r: Result<(), EncodeError>) {
        let start = buf.len();
        match self.encode_body(buf) {
            Ok(()) => Ok(()),
            Err(e) => {
                buf.truncate(start);
                proof {
                    assert(buf@ =~= old(buf)@);
                }
                Err(e)
            },
        }
    }
}

/// A bound parameter value fits the wire format when it is absent (sent
/// as the SQL NULL marker) or its byte length fits a 32-bit signed length.
pub open spec fn value_fits(v: Option<&[u8]>) -> bool {
    match v {
        None => true,
        Some(b) => b@.len() <= i32::MAX,
    }
}

/// The field a bound parameter value occupies: the SQL NULL marker -1
/// when absent, else the value's length then its bytes.
pub open spec fn spec_value_field(v: Option<&[u8]>) -> Seq<u8>
    recommends
        value_fits(v),
{
    match v {
        None => spec_i32_be(-1i32),
        Some(b) => spec_i32_be(b@.len() as i32) + b@,
    }
}

/// The concatenated fields of a sequence of bound parameter values.
pub open spec fn spec_value_fields(vs: Seq<Option<&[u8]>>) -> Seq<u8>
    decreases vs.len(),
{
    if vs.len() == 0 {
        Seq::empty()
    } else {
        spec_value_fields(vs.drop_last()) + spec_value_field(vs.last())
    }
}

pub proof fn lemma_value_fields_snoc(vs: Seq<Option<&[u8]>>, i: int)
    requires
        0 <= i < vs.len(),
    ensures
        spec_value_fields(vs.take(i + 1)) == spec_value_fields(vs.take(i)) + spec_value_field(
            vs[i],
        ),
{
    assert(vs.take(i + 1).drop_last() =~= vs.take(i));
}

/// Appends a list of 16-bit codes prefixed by its element count, all
/// big-endian. Fails, leaving the buffer unmodified, when the count
/// overflows the 16-bit wire field.
fn write_i16_list(buf: &mut Vec<u8>, xs: &[i16]) -> (r: Result<(), EncodeError>)
    ensures
        xs@.len() <= u16::MAX ==> r == Ok::<(), EncodeError>(()) && final(buf)@ == old(buf)@
            + spec_u16_be(xs@.len() as u16) + spec_i16s_be(xs@),
        xs@.len() > u16::MAX ==> r == Err::<(), EncodeError>(EncodeError::ValueTooLarge)
            && final(buf)@ == old(buf)@,
{
    let count = match u16_from_usize(xs.len()) {
        Ok(count) => count,
        Err(e) => {
            return Err(e);
        },
    };
    put_u16_be(buf, count);
    let ghost pre = buf@;
    let mut i: usize = 0;
    while i < xs.len()
        invariant
            i <= xs@.len(),
            pre == old(buf)@ + spec_u16_be(xs@.len() as u16),
            buf@ == pre + spec_i16s_be(xs@.take(i as int)),
        decreases xs@.len() - i,
    {
        put_i16_be(buf, xs[i]);
        i = i + 1;
        proof {
            lemma_i16s_be_snoc(xs@, i - 1);
            assert(buf@ =~= pre + spec_i16s_be(xs@.take(i as int)));
        }
    }
    proof {
        assert(xs@.take(xs@.len() as int) =~= xs@);
        assert(buf@ =~= old(buf)@ + spec_u16_be(xs@.len() as u16) + spec_i16s_be(xs@));
    }
    Ok(())
}

/// Appends the field of one bound parameter value: the SQL NULL marker
/// when absent, else the value's 32-bit signed length then its bytes.
/// Fails, leaving the buffer unmodified, when the length overflows.
fn write_value_field(buf: &mut Vec<u8>, v: Option<&[u8]>) -> (r: Result<(), EncodeError>)
    ensures
        value_fits(v) ==> r == Ok::<(), EncodeError>(()) && final(buf)@ == old(buf)@
            + spec_value_field(v),
        !value_fits(v) ==> r == Err::<(), EncodeError>(EncodeError::ValueTooLarge) && final(buf)@
            == old(buf)@,
{
    match v {
        None => {
            put_i32_be(buf, -1);
            Ok(())
        },
        Some(value) => {
            let value_len = match i32_from_usize(value.len()) {
                Ok(n) => n,
                Err(e) => {
                    return Err(e);
                },
            };
            put_i32_be(buf, value_len);
            push_bytes(buf, value);
            proof {
                assert(buf@ =~= old(buf)@ + spec_value_field(v));
            }
            Ok(())
        },
    }
}

/// Binds a prepared statement to a portal: parameter format codes, the
/// parameter values themselves (absent values are sent as SQL NULL), and
/// the format codes requested for the result columns.
pub struct Bind<'a> {
    pub portal: &'a str,
    pub statement: &'a str,
    pub formats: &'a [i16],
    pub values: &'a [Option<&'a [u8]>],
    pub result_formats: &'a [i16],
}

impl<'a> Bind<'a> {
    /// The payload: both names, then the three independently counted
    /// lists, each prefixed by its 16-bit element count.
    pub open spec fn spec_payload(&self) -> Seq<u8> {
        spec_cstr(self.portal.spec_bytes()) + spec_cstr(self.statement.spec_bytes()) + spec_u16_be(
            self.formats@.len() as u16,
        ) + spec_i16s_be(self.formats@) + spec_u16_be(self.values@.len() as u16)
            + spec_value_fields(self.values@) + spec_u16_be(self.result_formats@.len() as u16)
            + spec_i16s_be(self.result_formats@)
    }

    #[verifier::loop_isolation(false)]
    #[verifier::rlimit(50)]
    #[verifier::spinoff_prover]
    fn encode_body(&self, buf: &mut Vec<u8>) -> (r: Result<(), EncodeError>)
        ensures
            (match self.spec_encode() {
                Ok(frame) => r == Ok::<(), EncodeError>(()) && final(buf)@ == old(buf)@ + frame,
                Err(e) => r == Err::<(), EncodeError>(e) && final(buf)@.len() >= old(buf)@.len()
                    && final(buf)@.subrange(0, old(buf)@.len() as int) == old(buf)@,
            }),
    {
        let ghost buf0 = buf@;
        buf.push(TAG_BIND);
        let base = begin_frame(buf);
        match write_cstr(buf, self.portal) {
            Ok(()) => (),
            Err(e) => {
                proof {
                    assert(buf@.subrange(0, buf0.len() as int) =~= buf0);
                }
                return Err(e);
            },
        }
        match write_cstr(buf, self.statement) {
            Ok(()) => (),
            Err(e) => {
                proof {
                    assert(buf@.subrange(0, buf0.len() as int) =~= buf0);
                }
                return Err(e);
            },
        }
        match write_i16_list(buf, self.formats) {
            Ok(()) => (),
            Err(e) => {
                proof {
                    assert(buf@.subrange(0, buf0.len() as int) =~= buf0);
                }
                return Err(e);
            },
        }
        let num_values = match u16_from_usize(self.values.len()) {
            Ok(n) => n,
            Err(e) => {
                proof {
                    assert(buf@.subrange(0, buf0.len() as int) =~= buf0);
                }
                return Err(e);
            },
        };
        put_u16_be(buf, num_values);
        let ghost pre_values = buf@;
        let mut j: usize = 0;
        while j < self.values.len()
            invariant
                j <= self.values@.len(),
                buf@ == pre_values + spec_value_fields(self.values@.take(j as int)),
                forall|k: int| 0 <= k < j ==> value_fits(self.values@[k]),
            decreases self.values@.len() - j,
        {
            match write_value_field(buf, self.values[j]) {
                Ok(()) => (),
                Err(e) => {
                    proof {
                        assert(buf@.subrange(0, buf0.len() as int) =~= buf0);
                    }
                    return Err(e);
                },
            }
            j = j + 1;
            proof {
                lemma_value_fields_snoc(self.values@, j - 1);
                assert(buf@ =~= pre_values + spec_value_fields(self.values@.take(j as int)));
            }
        }
        proof {
            assert(self.values@.take(self.values@.len() as int) =~= self.values@);
        }
        match write_i16_list(buf, self.result_formats) {
            Ok(()) => (),
            Err(e) => {
                proof {
                    assert(buf@.subrange(0, buf0.len() as int) =~= buf0);
                }
                return Err(e);
            },
        }
        proof {
            assert(buf@ =~= buf0 + seq![TAG_BIND] + seq![0u8, 0u8, 0u8, 0u8]
                + self.spec_payload());
            lemma_frame_shape(buf0 + seq![TAG_BIND], self.spec_payload());
        }
        let r = end_frame(buf, base);
        proof {
            if self.spec_payload().len() + 4 <= i32::MAX {
                assert(buf@ =~= buf0 + spec_frame(seq![TAG_BIND], self.spec_payload()));
            } else {
                assert(buf@.subrange(0, buf0.len() as int) =~= buf0);
            }
        }
        r
    }
}

impl<'a> Message for Bind<'a> {
    open spec fn spec_encode(&self) -> Result<Seq<u8>, EncodeError> {
        if has_zero(self.portal.spec_bytes()) {
            Err(EncodeError::EmbeddedNull)
        } else if has_zero(self.statement.spec_bytes()) {
            Err(EncodeError::EmbeddedNull)
        } else if self.formats@.len() > u16::MAX {
            Err(EncodeError::ValueTooLarge)
        } else if self.values@.len() > u16::MAX {
            Err(EncodeError::ValueTooLarge)
        } else if exists|i: int| 0 <= i < self.values@.len() && !value_fits(self.values@[i]) {
            Err(EncodeError::ValueTooLarge)
        } else if self.result_formats@.len() > u16::MAX {
            Err(EncodeError::ValueTooLarge)
        } else if self.spec_payload().len() + 4 > i32::MAX {
            Err(EncodeError::ValueTooLarge)
        } else {
            Ok(spec_frame(seq![TAG_BIND], self.spec_payload()))
        }
    }

    fn write(&self, buf: &mut Vec<u8>) -> (r: Result<(), EncodeError>) {
        let start = buf.len();
        match self.encode_body(buf) {
            Ok(()) => Ok(()),
            Err(e) => {
                buf.truncate(start);
                proof {
                    assert(buf@ =~= old(buf)@);
                }
                Err(e)
            },
        }
    }
}

/// The length field of a tagged frame, read big-endian, equals the byte
/// count from the start of the length field to the end of the frame.
pub open spec fn tagged_frame_length_ok(frame: Seq<u8>) -> bool {
    frame.len() >= 5 && spec_u32_from_be(frame.subrange(1, 5)) == frame.len() - 1
}

/// Every encoded bind frame carries a self-consistent length field.
pub proof fn lemma_bind_frame_length<'a>(m: Bind<'a>)
    requires
        m.spec_encode() is Ok,
    ensures
        tagged_frame_length_ok(m.spec_encode()->Ok_0),
{
    lemma_frame_length(seq![TAG_BIND], m.spec_payload());
}

/// Every encoded cancel-request frame carries a self-consistent length
/// field; this kind has no tag byte, so the field opens the frame.
pub proof fn lemma_cancel_request_frame_length(m: CancelRequest)
    ensures
        m.spec_encode() is Ok,
        ({
            let frame = m.spec_encode()->Ok_0;
            frame.len() == 16 && spec_u32_from_be(frame.subrange(0, 4)) == frame.len()
        }),
{
    lemma_frame_length(Seq::empty(), m.spec_payload());
}

/// Every encoded close frame carries a self-consistent length field.
pub proof fn lemma_close_frame_length<'a>(m: Close<'a>)
    requires
        m.spec_encode() is Ok,
    ensures
        tagged_frame_length_ok(m.spec_encode()->Ok_0),
{
    lemma_frame_length(seq![TAG_CLOSE], m.spec_payload());
}

/// Every encoded copy-data frame carries a self-consistent length field.
pub proof fn lemma_copy_data_frame_length<'a>(m: CopyData<'a>)
    requires
        m.spec_encode() is Ok,
    ensures
        tagged_frame_length_ok(m.spec_encode()->Ok_0),
{
    lemma_frame_length(seq![TAG_COPY_DATA], m.data@);
}

/// Every encoded copy-done frame carries a self-consistent length field.
pub proof fn lemma_copy_done_frame_length(m: CopyDone)
    ensures
        m.spec_encode() is Ok,
        tagged_frame_length_ok(m.spec_encode()->Ok_0),
        m.spec_encode()->Ok_0.len() == 5,
{
    lemma_frame_length(seq![TAG_COPY_DONE], Seq::empty());
}

/// Every encoded copy-fail frame carries a self-consistent length field.
pub proof fn lemma_copy_fail_frame_length<'a>(m: CopyFail<'a>)
    requires
        m.spec_encode() is Ok,
    ensures
        tagged_frame_length_ok(m.spec_encode()->Ok_0),
{
    lemma_frame_length(seq![TAG_COPY_FAIL], m.spec_payload());
}

/// Every encoded describe frame carries a self-consistent length field.
pub proof fn lemma_describe_frame_length<'a>(m: Describe<'a>)
    requires
        m.spec_encode() is Ok,
    ensures
        tagged_frame_length_ok(m.spec_encode()->Ok_0),
{
    lemma_frame_length(seq![TAG_DESCRIBE], m.spec_payload());
}

/// Every encoded execute frame carries a self-consistent length field.
pub proof fn lemma_execute_frame_length<'a>(m: Execute<'a>)
    requires
        m.spec_encode() is Ok,
    ensures
        tagged_frame_length_ok(m.spec_encode()->Ok_0),
{
    lemma_frame_length(seq![TAG_EXECUTE], m.spec_payload());
}

/// Every encoded parse frame carries a self-consistent length field.
pub proof fn lemma_parse_frame_length<'a>(m: Parse<'a>)
    requires
        m.spec_encode() is Ok,
    ensures
        tagged_frame_length_ok(m.spec_encode()->Ok_0),
{
    lemma_frame_length(seq![TAG_PARSE], m.spec_payload());
}

/// A zero byte anywhere in either of a bind message's textual fields makes
/// its encoding fail with `EmbeddedNull`, whatever the other fields hold.
pub proof fn lemma_bind_embedded_null<'a>(m: Bind<'a>)
    requires
        has_zero(m.portal.spec_bytes()) || has_zero(m.statement.spec_bytes()),
    ensures
        m.spec_encode() == Err::<Seq<u8>, EncodeError>(EncodeError::EmbeddedNull),
{
}

/// A zero byte anywhere in a close message's name makes its encoding fail
/// with `EmbeddedNull`, whatever the variant byte holds.
pub proof fn lemma_close_embedded_null<'a>(m: Close<'a>)
    requires
        has_zero(m.name.spec_bytes()),
    ensures
        m.spec_encode() == Err::<Seq<u8>, EncodeError>(EncodeError::EmbeddedNull),
{
}

/// A zero byte anywhere in a copy-fail message's text makes its encoding
/// fail with `EmbeddedNull`.
pub proof fn lemma_copy_fail_embedded_null<'a>(m: CopyFail<'a>)
    requires
        has_zero(m.message.spec_bytes()),
    ensures
        m.spec_encode() == Err::<Seq<u8>, EncodeError>(EncodeError::EmbeddedNull),
{
}

/// A zero byte anywhere in a describe message's name makes its encoding
/// fail with `EmbeddedNull`, whatever the variant byte holds.
pub proof fn lemma_describe_embedded_null<'a>(m: Describe<'a>)
    requires
        has_zero(m.name.spec_bytes()),
    ensures
        m.spec_encode() == Err::<Seq<u8>, EncodeError>(EncodeError::EmbeddedNull),
{
}

/// A zero byte anywhere in an execute message's portal name makes its
/// encoding fail with `EmbeddedNull`, whatever the row limit holds.
pub proof fn lemma_execute_embedded_null<'a>(m: Execute<'a>)
    requires
        has_zero(m.portal.spec_bytes()),
    ensures
        m.spec_encode() == Err::<Seq<u8>, EncodeError>(EncodeError::EmbeddedNull),
{
}

/// A zero byte anywhere in a parse message's statement name or query text
/// makes its encoding fail with `EmbeddedNull`, whatever the other fields
/// hold.
pub proof fn lemma_parse_embedded_null<'a>(m: Parse<'a>)
    requires
        has_zero(m.name.spec_bytes()) || has_zero(m.query.spec_bytes()),
    ensures
        m.spec_encode() == Err::<Seq<u8>, EncodeError>(EncodeError::EmbeddedNull),
{
}

} // verus!
