//! The two faces of every frame kind, how it is written and how it is read
//! off the front of a buffer, and the entry points that work on any frame.
use crate::buffer::{advance, buffer_bytes, readable};
use crate::decimal::BigNumber;
use crate::error::RespError;
use crate::frame::{
    array_at, big_number_at, boolean_at, bulk_at, bulk_null_at, double_at, encode_into,
    expect_array_at, expect_at, expect_bulk_at, expect_fixed, expect_tagged, frame_at,
    frame_model, frames_model, integer_at, null_array_at, null_at, predicted, simple_error_at,
    simple_string_at, BulkNullString, BulkString, Double, RespFrame, RespFrameArray,
    RespNullArray, SimpleError, SimpleNull, SimpleString,
};
use crate::model::{
    bulk_null_literal, null_array_literal, parse, parse_array, parse_big_number, parse_boolean,
    parse_bulk, parse_bulk_null, parse_double, parse_integer, parse_null, parse_null_array,
    parse_simple_error, parse_simple_string, predict, predict_array, predict_bulk, predict_fixed,
    predict_tagged, ser, FrameV,
};
use bytes::BytesMut;
use vstd::prelude::*;

verus! {

/// Writing a value as a frame.
pub trait RespEncode: Sized {
    /// The frame that the value stands for.
    spec fn frame(&self) -> FrameV;

    /// The wire bytes of the frame.
    fn encode(self) -> (r: Vec<u8>)
        ensures
            r@ == ser(self.frame()),
    ;
}

/// Reading a value of one frame kind off the front of a buffer.
pub trait RespDecode: RespEncode {
    /// How this kind decodes from the front of `s`, and how many bytes it takes.
    spec fn decode_spec(s: Seq<u8>) -> Result<(FrameV, nat), RespError>;

    /// How long this kind predicts the frame at the front of `s` to be.
    spec fn expect_length_spec(s: Seq<u8>) -> Result<nat, RespError>;

    /// Decodes one frame and removes exactly its bytes; on any error the
    /// buffer is left as it was.
    fn decode(buf: &mut BytesMut) -> (r: Result<Self, RespError>)
        ensures
            match Self::decode_spec(buffer_bytes(*old(buf))) {
                Ok((f, n)) => r matches Ok(x) && x.frame() == f && buffer_bytes(*final(buf))
                    == buffer_bytes(*old(buf)).skip(n as int),
                Err(e) => r == Err::<Self, RespError>(e) && buffer_bytes(*final(buf))
                    == buffer_bytes(*old(buf)),
            },
    ;

    /// The length of the frame at the front of `buf`, without decoding it.
    fn expect_length(buf: &[u8]) -> (r: Result<usize, RespError>)
        ensures
            predicted(r, Self::expect_length_spec(buf@)),
    ;
}

proof fn lemma_skip0(s: Seq<u8>)
    ensures
        s.skip(0) == s,
{
    assert(s.skip(0) =~= s);
}

impl RespEncode for RespFrame {
    open spec fn frame(&self) -> FrameV {
        frame_model(*self)
    }

    fn encode(self) -> (r: Vec<u8>) {
        let mut out: Vec<u8> = Vec::new();
        encode_into(&self, &mut out);
        assert(out@ =~= ser(self.frame()));
        out
    }
}

impl RespDecode for RespFrame {
    open spec fn decode_spec(s: Seq<u8>) -> Result<(FrameV, nat), RespError> {
        parse(s)
    }

    open spec fn expect_length_spec(s: Seq<u8>) -> Result<nat, RespError> {
        predict(s)
    }

    fn decode(buf: &mut BytesMut) -> (r: Result<Self, RespError>) {
        proof {
            lemma_skip0(buffer_bytes(*buf));
        }
        match frame_at(readable(buf), 0) {
            Ok((x, n)) => {
                advance(buf, n);
                Ok(x)
            },
            Err(e) => Err(e),
        }
    }

    fn expect_length(buf: &[u8]) -> (r: Result<usize, RespError>) {
        proof {
            lemma_skip0(buf@);
        }
        expect_at(buf, 0)
    }
}

impl RespEncode for SimpleString {
    open spec fn frame(&self) -> FrameV {
        FrameV::SimpleString(self.0@)
    }

    fn encode(self) -> (r: Vec<u8>) {
        RespFrame::Strings(self).encode()
    }
}

impl RespDecode for SimpleString {
    open spec fn decode_spec(s: Seq<u8>) -> Result<(FrameV, nat), RespError> {
        parse_simple_string(s)
    }

    open spec fn expect_length_spec(s: Seq<u8>) -> Result<nat, RespError> {
        predict_tagged(s, 43)
    }

    fn decode(buf: &mut BytesMut) -> (r: Result<Self, RespError>) {
        proof {
            lemma_skip0(buffer_bytes(*buf));
        }
        match simple_string_at(readable(buf), 0) {
            Ok((RespFrame::Strings(x), n)) => {
                advance(buf, n);
                Ok(x)
            },
            Ok(_) => Err(RespError::InvalidFrame),
            Err(e) => Err(e),
        }
    }

    fn expect_length(buf: &[u8]) -> (r: Result<usize, RespError>) {
        proof {
            lemma_skip0(buf@);
        }
        expect_tagged(buf, 0, 43)
    }
}

impl RespEncode for SimpleError {
    open spec fn frame(&self) -> FrameV {
        FrameV::SimpleError(self.0@)
    }

    fn encode(self) -> (r: Vec<u8>) {
        RespFrame::Errors(self).encode()
    }
}

impl RespDecode for SimpleError {
    open spec fn decode_spec(s: Seq<u8>) -> Result<(FrameV, nat), RespError> {
        parse_simple_error(s)
    }

    open spec fn expect_length_spec(s: Seq<u8>) -> Result<nat, RespError> {
        predict_tagged(s, 45)
    }

    fn decode(buf: &mut BytesMut) -> (r: Result<Self, RespError>) {
        proof {
            lemma_skip0(buffer_bytes(*buf));
        }
        match simple_error_at(readable(buf), 0) {
            Ok((RespFrame::Errors(x), n)) => {
                advance(buf, n);
                Ok(x)
            },
            Ok(_) => Err(RespError::InvalidFrame),
            Err(e) => Err(e),
        }
    }

    fn expect_length(buf: &[u8]) -> (r: Result<usize, RespError>) {
        proof {
            lemma_skip0(buf@);
        }
        expect_tagged(buf, 0, 45)
    }
}

impl RespEncode for i64 {
    open spec fn frame(&self) -> FrameV {
        FrameV::Integer(*self as int)
    }

    fn encode(self) -> (r: Vec<u8>) {
        RespFrame::Integers(self).encode()
    }
}

impl RespDecode for i64 {
    open spec fn decode_spec(s: Seq<u8>) -> Result<(FrameV, nat), RespError> {
        parse_integer(s)
    }

    open spec fn expect_length_spec(s: Seq<u8>) -> Result<nat, RespError> {
        predict_tagged(s, 58)
    }

    fn decode(buf: &mut BytesMut) -> (r: Result<Self, RespError>) {
        proof {
            lemma_skip0(buffer_bytes(*buf));
        }
        match integer_at(readable(buf), 0) {
            Ok((RespFrame::Integers(x), n)) => {
                advance(buf, n);
                Ok(x)
            },
            Ok(_) => Err(RespError::InvalidFrame),
            Err(e) => Err(e),
        }
    }

    fn expect_length(buf: &[u8]) -> (r: Result<usize, RespError>) {
        proof {
            lemma_skip0(buf@);
        }
        expect_tagged(buf, 0, 58)
    }
}

impl RespEncode for SimpleNull {
    open spec fn frame(&self) -> FrameV {
        FrameV::Null
    }

    fn encode(self) -> (r: Vec<u8>) {
        RespFrame::Nulls(self).encode()
    }
}

impl RespDecode for SimpleNull {
    open spec fn decode_spec(s: Seq<u8>) -> Result<(FrameV, nat), RespError> {
        parse_null(s)
    }

    open spec fn expect_length_spec(s: Seq<u8>) -> Result<nat, RespError> {
        predict_tagged(s, 95)
    }

    fn decode(buf: &mut BytesMut) -> (r: Result<Self, RespError>) {
        proof {
            lemma_skip0(buffer_bytes(*buf));
        }
        match null_at(readable(buf), 0) {
            Ok((RespFrame::Nulls(x), n)) => {
                advance(buf, n);
                Ok(x)
            },
            Ok(_) => Err(RespError::InvalidFrame),
            Err(e) => Err(e),
        }
    }

    fn expect_length(buf: &[u8]) -> (r: Result<usize, RespError>) {
        proof {
            lemma_skip0(buf@);
        }
        expect_tagged(buf, 0, 95)
    }
}

impl RespEncode for bool {
    open spec fn frame(&self) -> FrameV {
        FrameV::Boolean(*self)
    }

    fn encode(self) -> (r: Vec<u8>) {
        RespFrame::Booleans(self).encode()
    }
}

impl RespDecode for bool {
    open spec fn decode_spec(s: Seq<u8>) -> Result<(FrameV, nat), RespError> {
        parse_boolean(s)
    }

    open spec fn expect_length_spec(s: Seq<u8>) -> Result<nat, RespError> {
        predict_tagged(s, 35)
    }

    fn decode(buf: &mut BytesMut) -> (r: Result<Self, RespError>) {
        proof {
            lemma_skip0(buffer_bytes(*buf));
        }
        match boolean_at(readable(buf), 0) {
            Ok((RespFrame::Booleans(x), n)) => {
                advance(buf, n);
                Ok(x)
            },
            Ok(_) => Err(RespError::InvalidFrame),
            Err(e) => Err(e),
        }
    }

    fn expect_length(buf: &[u8]) -> (r: Result<usize, RespError>) {
        proof {
            lemma_skip0(buf@);
        }
        expect_tagged(buf, 0, 35)
    }
}

impl RespEncode for Double {
    open spec fn frame(&self) -> FrameV {
        FrameV::Double(self.0@)
    }

    fn encode(self) -> (r: Vec<u8>) {
        RespFrame::Doubles(self).encode()
    }
}

impl RespDecode for Double {
    open spec fn decode_spec(s: Seq<u8>) -> Result<(FrameV, nat), RespError> {
        parse_double(s)
    }

    open spec fn expect_length_spec(s: Seq<u8>) -> Result<nat, RespError> {
        predict_tagged(s, 44)
    }

    fn decode(buf: &mut BytesMut) -> (r: Result<Self, RespError>) {
        proof {
            lemma_skip0(buffer_bytes(*buf));
        }
        match double_at(readable(buf), 0) {
            Ok((RespFrame::Doubles(x), n)) => {
                advance(buf, n);
                Ok(x)
            },
            Ok(_) => Err(RespError::InvalidFrame),
            Err(e) => Err(e),
        }
    }

    fn expect_length(buf: &[u8]) -> (r: Result<usize, RespError>) {
        proof {
            lemma_skip0(buf@);
        }
        expect_tagged(buf, 0, 44)
    }
}

impl RespEncode for BigNumber {
    open spec fn frame(&self) -> FrameV {
        FrameV::BigNumber(self.spec_negative(), self.spec_text())
    }

    fn encode(self) -> (r: Vec<u8>) {
        RespFrame::BigNumbers(self).encode()
    }
}

impl RespDecode for BigNumber {
    open spec fn decode_spec(s: Seq<u8>) -> Result<(FrameV, nat), RespError> {
        parse_big_number(s)
    }

    open spec fn expect_length_spec(s: Seq<u8>) -> Result<nat, RespError> {
        predict_tagged(s, 40)
    }

    fn decode(buf: &mut BytesMut) -> (r: Result<Self, RespError>) {
        proof {
            lemma_skip0(buffer_bytes(*buf));
        }
        match big_number_at(readable(buf), 0) {
            Ok((RespFrame::BigNumbers(x), n)) => {
                advance(buf, n);
                Ok(x)
            },
            Ok(_) => Err(RespError::InvalidFrame),
            Err(e) => Err(e),
        }
    }

    fn expect_length(buf: &[u8]) -> (r: Result<usize, RespError>) {
        proof {
            lemma_skip0(buf@);
        }
        expect_tagged(buf, 0, 40)
    }
}

impl RespEncode for BulkString {
    open spec fn frame(&self) -> FrameV {
        FrameV::BulkString(self.0@)
    }

    fn encode(self) -> (r: Vec<u8>) {
        RespFrame::BulkStrings(self).encode()
    }
}

impl RespDecode for BulkString {
    open spec fn decode_spec(s: Seq<u8>) -> Result<(FrameV, nat), RespError> {
        parse_bulk(s)
    }

    open spec fn expect_length_spec(s: Seq<u8>) -> Result<nat, RespError> {
        predict_bulk(s)
    }

    fn decode(buf: &mut BytesMut) -> (r: Result<Self, RespError>) {
        proof {
            lemma_skip0(buffer_bytes(*buf));
        }
        match bulk_at(readable(buf), 0) {
            Ok((RespFrame::BulkStrings(x), n)) => {
                advance(buf, n);
                Ok(x)
            },
            Ok(_) => Err(RespError::InvalidFrame),
            Err(e) => Err(e),
        }
    }

    fn expect_length(buf: &[u8]) -> (r: Result<usize, RespError>) {
        proof {
            lemma_skip0(buf@);
        }
        expect_bulk_at(buf, 0)
    }
}

impl RespEncode for BulkNullString {
    open spec fn frame(&self) -> FrameV {
        FrameV::BulkNull
    }

    fn encode(self) -> (r: Vec<u8>) {
        RespFrame::BulkNullStrings(self).encode()
    }
}

impl RespDecode for BulkNullString {
    open spec fn decode_spec(s: Seq<u8>) -> Result<(FrameV, nat), RespError> {
        parse_bulk_null(s)
    }

    open spec fn expect_length_spec(s: Seq<u8>) -> Result<nat, RespError> {
        predict_fixed(s, bulk_null_literal())
    }

    fn decode(buf: &mut BytesMut) -> (r: Result<Self, RespError>) {
        proof {
            lemma_skip0(buffer_bytes(*buf));
        }
        match bulk_null_at(readable(buf), 0) {
            Ok((RespFrame::BulkNullStrings(x), n)) => {
                advance(buf, n);
                Ok(x)
            },
            Ok(_) => Err(RespError::InvalidFrame),
            Err(e) => Err(e),
        }
    }

    fn expect_length(buf: &[u8]) -> (r: Result<usize, RespError>) {
        let lit = vec![36u8, 45, 49, 13, 10];
        assert(lit@ =~= bulk_null_literal());
        expect_fixed(buf, lit.as_slice())
    }
}

impl RespEncode for RespNullArray {
    open spec fn frame(&self) -> FrameV {
        FrameV::NullArray
    }

    fn encode(self) -> (r: Vec<u8>) {
        RespFrame::NullArray(self).encode()
    }
}

impl RespDecode for RespNullArray {
    open spec fn decode_spec(s: Seq<u8>) -> Result<(FrameV, nat), RespError> {
        parse_null_array(s)
    }

    open spec fn expect_length_spec(s: Seq<u8>) -> Result<nat, RespError> {
        predict_fixed(s, null_array_literal())
    }

    fn decode(buf: &mut BytesMut) -> (r: Result<Self, RespError>) {
        proof {
            lemma_skip0(buffer_bytes(*buf));
        }
        match null_array_at(readable(buf), 0) {
            Ok((RespFrame::NullArray(x), n)) => {
                advance(buf, n);
                Ok(x)
            },
            Ok(_) => Err(RespError::InvalidFrame),
            Err(e) => Err(e),
        }
    }

    fn expect_length(buf: &[u8]) -> (r: Result<usize, RespError>) {
        let lit = vec![42u8, 45, 49, 13, 10];
        assert(lit@ =~= null_array_literal());
        expect_fixed(buf, lit.as_slice())
    }
}

impl RespEncode for RespFrameArray {
    open spec fn frame(&self) -> FrameV {
        FrameV::Array(frames_model(self.0@, self.0@.len()))
    }

    fn encode(self) -> (r: Vec<u8>) {
        RespFrame::Array(self).encode()
    }
}

impl RespDecode for RespFrameArray {
    open spec fn decode_spec(s: Seq<u8>) -> Result<(FrameV, nat), RespError> {
        parse_array(s)
    }

    open spec fn expect_length_spec(s: Seq<u8>) -> Result<nat, RespError> {
        predict_array(s)
    }

    fn decode(buf: &mut BytesMut) -> (r: Result<Self, RespError>) {
        proof {
            lemma_skip0(buffer_bytes(*buf));
        }
        match array_at(readable(buf), 0) {
            Ok((RespFrame::Array(x), n)) => {
                advance(buf, n);
                Ok(x)
            },
            Ok(_) => Err(RespError::InvalidFrame),
            Err(e) => Err(e),
        }
    }

    fn expect_length(buf: &[u8]) -> (r: Result<usize, RespError>) {
        proof {
            lemma_skip0(buf@);
        }
        expect_array_at(buf, 0)
    }
}

} // verus!

verus! {

/// Decodes the frame at the front of `buf`, removing exactly its bytes; when
/// more bytes are needed, or the bytes are not a frame, the buffer is left
/// as it was and the error says which.
pub fn decode_any(buf: &mut BytesMut) -> (r: Result<RespFrame, RespError>)
    ensures
        match parse(buffer_bytes(*old(buf))) {
            Ok((f, n)) => r matches Ok(x) && x@ == f && buffer_bytes(*final(buf)) == buffer_bytes(
                *old(buf),
            ).skip(n as int),
            Err(e) => r == Err::<RespFrame, RespError>(e) && buffer_bytes(*final(buf))
                == buffer_bytes(*old(buf)),
        },
{
    RespFrame::decode(buf)
}

/// How many bytes the frame at the front of `buf` takes, read from its
/// headers and terminators without decoding any payload.
pub fn predict_length(buf: &[u8]) -> (r: Result<usize, RespError>)
    ensures
        predicted(r, predict(buf@)),
{
    RespFrame::expect_length(buf)
}

/// The wire bytes of a frame.
pub fn encode(frame: RespFrame) -> (r: Vec<u8>)
    ensures
        r@ == ser(frame@),
{
    frame.encode()
}

impl SimpleString {
    pub fn new(s: String) -> (r: SimpleString)
        ensures
            r.0@ == s@,
    {
        SimpleString(s)
    }
}

impl SimpleError {
    pub fn new(s: String) -> (r: SimpleError)
        ensures
            r.0@ == s@,
    {
        SimpleError(s)
    }
}

impl BulkString {
    pub fn new(data: Vec<u8>) -> (r: BulkString)
        ensures
            r.0@ == data@,
    {
        BulkString(data)
    }
}

impl Double {
    pub fn new(text: Vec<u8>) -> (r: Double)
        ensures
            r.0@ == text@,
    {
        Double(text)
    }
}

impl RespFrameArray {
    pub fn new(frames: Vec<RespFrame>) -> (r: RespFrameArray)
        ensures
            r.0@ == frames@,
    {
        RespFrameArray(frames)
    }
}

} // verus!

verus! {

impl From<SimpleString> for RespFrame {
    fn from(v: SimpleString) -> (r: RespFrame) {
        RespFrame::Strings(v)
    }
}

impl vstd::std_specs::convert::FromSpecImpl<SimpleString> for RespFrame {
    open spec fn obeys_from_spec() -> bool {
        true
    }

    open spec fn from_spec(v: SimpleString) -> RespFrame {
        RespFrame::Strings(v)
    }
}

impl From<SimpleError> for RespFrame {
    fn from(v: SimpleError) -> (r: RespFrame) {
        RespFrame::Errors(v)
    }
}

impl vstd::std_specs::convert::FromSpecImpl<SimpleError> for RespFrame {
    open spec fn obeys_from_spec() -> bool {
        true
    }

    open spec fn from_spec(v: SimpleError) -> RespFrame {
        RespFrame::Errors(v)
    }
}

impl From<i64> for RespFrame {
    fn from(v: i64) -> (r: RespFrame) {
        RespFrame::Integers(v)
    }
}

impl vstd::std_specs::convert::FromSpecImpl<i64> for RespFrame {
    open spec fn obeys_from_spec() -> bool {
        true
    }

    open spec fn from_spec(v: i64) -> RespFrame {
        RespFrame::Integers(v)
    }
}

impl From<SimpleNull> for RespFrame {
    fn from(v: SimpleNull) -> (r: RespFrame) {
        RespFrame::Nulls(v)
    }
}

impl vstd::std_specs::convert::FromSpecImpl<SimpleNull> for RespFrame {
    open spec fn obeys_from_spec() -> bool {
        true
    }

    open spec fn from_spec(v: SimpleNull) -> RespFrame {
        RespFrame::Nulls(v)
    }
}

impl From<bool> for RespFrame {
    fn from(v: bool) -> (r: RespFrame) {
        RespFrame::Booleans(v)
    }
}

impl vstd::std_specs::convert::FromSpecImpl<bool> for RespFrame {
    open spec fn obeys_from_spec() -> bool {
        true
    }

    open spec fn from_spec(v: bool) -> RespFrame {
        RespFrame::Booleans(v)
    }
}

impl From<Double> for RespFrame {
    fn from(v: Double) -> (r: RespFrame) {
        RespFrame::Doubles(v)
    }
}

impl vstd::std_specs::convert::FromSpecImpl<Double> for RespFrame {
    open spec fn obeys_from_spec() -> bool {
        true
    }

    open spec fn from_spec(v: Double) -> RespFrame {
        RespFrame::Doubles(v)
    }
}

impl From<BigNumber> for RespFrame {
    fn from(v: BigNumber) -> (r: RespFrame) {
        RespFrame::BigNumbers(v)
    }
}

impl vstd::std_specs::convert::FromSpecImpl<BigNumber> for RespFrame {
    open spec fn obeys_from_spec() -> bool {
        true
    }

    open spec fn from_spec(v: BigNumber) -> RespFrame {
        RespFrame::BigNumbers(v)
    }
}

impl From<BulkString> for RespFrame {
    fn from(v: BulkString) -> (r: RespFrame) {
        RespFrame::BulkStrings(v)
    }
}

impl vstd::std_specs::convert::FromSpecImpl<BulkString> for RespFrame {
    open spec fn obeys_from_spec() -> bool {
        true
    }

    open spec fn from_spec(v: BulkString) -> RespFrame {
        RespFrame::BulkStrings(v)
    }
}

impl From<BulkNullString> for RespFrame {
    fn from(v: BulkNullString) -> (r: RespFrame) {
        RespFrame::BulkNullStrings(v)
    }
}

impl vstd::std_specs::convert::FromSpecImpl<BulkNullString> for RespFrame {
    open spec fn obeys_from_spec() -> bool {
        true
    }

    open spec fn from_spec(v: BulkNullString) -> RespFrame {
        RespFrame::BulkNullStrings(v)
    }
}

impl From<RespNullArray> for RespFrame {
    fn from(v: RespNullArray) -> (r: RespFrame) {
        RespFrame::NullArray(v)
    }
}

impl vstd::std_specs::convert::FromSpecImpl<RespNullArray> for RespFrame {
    open spec fn obeys_from_spec() -> bool {
        true
    }

    open spec fn from_spec(v: RespNullArray) -> RespFrame {
        RespFrame::NullArray(v)
    }
}

impl From<RespFrameArray> for RespFrame {
    fn from(v: RespFrameArray) -> (r: RespFrame) {
        RespFrame::Array(v)
    }
}

impl vstd::std_specs::convert::FromSpecImpl<RespFrameArray> for RespFrame {
    open spec fn obeys_from_spec() -> bool {
        true
    }

    open spec fn from_spec(v: RespFrameArray) -> RespFrame {
        RespFrame::Array(v)
    }
}

impl From<Vec<RespFrame>> for RespFrameArray {
    fn from(v: Vec<RespFrame>) -> (r: RespFrameArray) {
        RespFrameArray(v)
    }
}

impl vstd::std_specs::convert::FromSpecImpl<Vec<RespFrame>> for RespFrameArray {
    open spec fn obeys_from_spec() -> bool {
        true
    }

    open spec fn from_spec(v: Vec<RespFrame>) -> RespFrameArray {
        RespFrameArray(v)
    }
}

} // verus!
