//! The mathematical model of the wire format: frames as values, what bytes
//! each frame is written as, how a byte sequence decodes, and how long the
//! frame at its front predicts itself to be.
use crate::buffer::{crlf, fixed, sentinel, simple_end, text_from};
use crate::decimal::{decimal_display, decimal_is_negative, decimal_parses};
use crate::error::RespError;
use crate::number::{nat_text, parse_signed, parse_unsigned, signed_text};
use vstd::prelude::*;
use vstd::utf8::encode_utf8;

verus! {

/// A frame as a mathematical value.
pub enum FrameV {
    SimpleString(Seq<char>),
    SimpleError(Seq<char>),
    Integer(int),
    Null,
    Boolean(bool),
    /// The text of a 64-bit float, as it stands on its line.
    Double(Seq<u8>),
    /// A decimal's sign and its canonical text.
    BigNumber(bool, Seq<char>),
    BulkString(Seq<u8>),
    BulkNull,
    NullArray,
    Array(Seq<FrameV>),
}

pub open spec fn null_literal() -> Seq<u8> {
    seq![95u8, 13u8, 10u8]
}

pub open spec fn true_literal() -> Seq<u8> {
    seq![35u8, 116u8, 13u8, 10u8]
}

pub open spec fn false_literal() -> Seq<u8> {
    seq![35u8, 102u8, 13u8, 10u8]
}

pub open spec fn bulk_null_literal() -> Seq<u8> {
    seq![36u8, 45u8, 49u8, 13u8, 10u8]
}

pub open spec fn null_array_literal() -> Seq<u8> {
    seq![42u8, 45u8, 49u8, 13u8, 10u8]
}

/// A tag byte, a line of text, a terminator.
pub open spec fn tagged_line(tag: u8, text: Seq<u8>) -> Seq<u8> {
    seq![tag] + text + crlf()
}

/// A big number's line: a `+` unless it is negative, then its text, whose
/// own minus sign stands for a negative one.
pub open spec fn big_line(neg: bool, t: Seq<char>) -> Seq<u8> {
    (if neg {
        Seq::empty()
    } else {
        seq![43u8]
    }) + encode_utf8(t)
}

/// The wire bytes of a frame.
pub open spec fn ser(f: FrameV) -> Seq<u8>
    decreases f, 0nat,
{
    match f {
        FrameV::SimpleString(t) => tagged_line(43, encode_utf8(t)),
        FrameV::SimpleError(t) => tagged_line(45, encode_utf8(t)),
        FrameV::Integer(v) => tagged_line(58, signed_text(v)),
        FrameV::Null => null_literal(),
        FrameV::Boolean(b) => if b {
            true_literal()
        } else {
            false_literal()
        },
        FrameV::Double(t) => tagged_line(44, t),
        FrameV::BigNumber(neg, t) => tagged_line(40, big_line(neg, t)),
        FrameV::BulkString(b) => tagged_line(36, nat_text(b.len())) + b + crlf(),
        FrameV::BulkNull => bulk_null_literal(),
        FrameV::NullArray => null_array_literal(),
        FrameV::Array(fs) => tagged_line(42, nat_text(fs.len())) + ser_items(fs, fs.len()),
    }
}

/// The wire bytes of the first `n` frames of `fs`, one after another.
pub open spec fn ser_items(fs: Seq<FrameV>, n: nat) -> Seq<u8>
    decreases fs, n,
{
    if n == 0 || n > fs.len() {
        Seq::empty()
    } else {
        ser_items(fs, (n - 1) as nat) + ser(fs[n - 1])
    }
}

/// The text of a line that ends at `e`.
pub open spec fn line_text(s: Seq<u8>, e: nat) -> Seq<u8> {
    s.subrange(1, e as int)
}

/// A header line `<tag><count>` and where it ends.
pub open spec fn header(s: Seq<u8>, tag: u8) -> Result<(nat, nat), RespError> {
    match simple_end(s, seq![tag]) {
        Ok(e) => match parse_unsigned(line_text(s, e)) {
            Some(n) => Ok((e, n)),
            None => Err(RespError::ParseIntError),
        },
        Err(x) => Err(x),
    }
}

/// A single-line frame: its line's text turned into a frame by `make`.
pub open spec fn parse_line(
    s: Seq<u8>,
    tag: u8,
    make: spec_fn(Seq<u8>) -> Result<FrameV, RespError>,
) -> Result<(FrameV, nat), RespError> {
    match simple_end(s, seq![tag]) {
        Ok(e) => match make(line_text(s, e)) {
            Ok(f) => Ok((f, e + 2)),
            Err(x) => Err(x),
        },
        Err(x) => Err(x),
    }
}

pub open spec fn parse_simple_string(s: Seq<u8>) -> Result<(FrameV, nat), RespError> {
    parse_line(s, 43, |t: Seq<u8>| Ok(FrameV::SimpleString(text_from(t))))
}

pub open spec fn parse_simple_error(s: Seq<u8>) -> Result<(FrameV, nat), RespError> {
    parse_line(s, 45, |t: Seq<u8>| Ok(FrameV::SimpleError(text_from(t))))
}

pub open spec fn make_integer(t: Seq<u8>) -> Result<FrameV, RespError> {
    match parse_signed(t) {
        Some(v) => Ok(FrameV::Integer(v)),
        None => Err(RespError::ParseIntError),
    }
}

pub open spec fn parse_integer(s: Seq<u8>) -> Result<(FrameV, nat), RespError> {
    parse_line(s, 58, |t: Seq<u8>| make_integer(t))
}

pub open spec fn parse_double(s: Seq<u8>) -> Result<(FrameV, nat), RespError> {
    parse_line(s, 44, |t: Seq<u8>| Ok(FrameV::Double(t)))
}

pub open spec fn make_big_number(t: Seq<u8>) -> Result<FrameV, RespError> {
    let text = text_from(t);
    if decimal_parses(text) {
        Ok(FrameV::BigNumber(decimal_is_negative(text), decimal_display(text)))
    } else {
        Err(RespError::ParseBigNumberError)
    }
}

pub open spec fn parse_big_number(s: Seq<u8>) -> Result<(FrameV, nat), RespError> {
    parse_line(s, 40, |t: Seq<u8>| make_big_number(t))
}

/// A frame written as a fixed literal.
pub open spec fn parse_fixed(s: Seq<u8>, lit: Seq<u8>, f: FrameV) -> Result<(FrameV, nat), RespError> {
    match fixed(s, lit) {
        Ok(_) => Ok((f, lit.len())),
        Err(x) => Err(x),
    }
}

pub open spec fn parse_null(s: Seq<u8>) -> Result<(FrameV, nat), RespError> {
    parse_fixed(s, null_literal(), FrameV::Null)
}

/// `#t`, or else `#f`; an incomplete `#t` attempt is final.
pub open spec fn parse_boolean(s: Seq<u8>) -> Result<(FrameV, nat), RespError> {
    match fixed(s, true_literal()) {
        Ok(_) => Ok((FrameV::Boolean(true), 4)),
        Err(RespError::NotComplete) => Err(RespError::NotComplete),
        Err(_) => parse_fixed(s, false_literal(), FrameV::Boolean(false)),
    }
}

pub open spec fn parse_bulk_null(s: Seq<u8>) -> Result<(FrameV, nat), RespError> {
    parse_fixed(s, bulk_null_literal(), FrameV::BulkNull)
}

pub open spec fn parse_null_array(s: Seq<u8>) -> Result<(FrameV, nat), RespError> {
    parse_fixed(s, null_array_literal(), FrameV::NullArray)
}

/// A length header, then exactly that many payload bytes and two more.
pub open spec fn parse_bulk(s: Seq<u8>) -> Result<(FrameV, nat), RespError> {
    match header(s, 36) {
        Ok((e, n)) => if s.len() < e + 2 + n + 2 {
            Err(RespError::NotComplete)
        } else {
            Ok((FrameV::BulkString(s.subrange(e + 2int, e + 2int + n)), e + 2 + n + 2))
        },
        Err(x) => Err(x),
    }
}

/// The null sentinel, tested before the general bulk string or array.
pub open spec fn parse_sentinel(s: Seq<u8>, lit: Seq<u8>, f: FrameV) -> Result<(FrameV, nat), RespError> {
    match sentinel(s, lit) {
        Ok(_) => Ok((f, lit.len())),
        Err(x) => Err(x),
    }
}

/// Tries the null sentinel first; only bytes that are still a beginning of
/// it are final (incomplete), bytes that differ go on to the general kind.
pub open spec fn null_first(
    s: Seq<u8>,
    null: Result<(FrameV, nat), RespError>,
    general: Result<(FrameV, nat), RespError>,
) -> Result<(FrameV, nat), RespError> {
    match null {
        Ok(r) => Ok(r),
        Err(RespError::NotComplete) => Err(RespError::NotComplete),
        Err(_) => general,
    }
}

/// How the frame at the front of `s` decodes, and how many bytes it takes.
pub open spec fn parse(s: Seq<u8>) -> Result<(FrameV, nat), RespError>
    decreases s.len(), 2nat,
{
    if s.len() == 0 {
        Err(RespError::NotComplete)
    } else if s[0] == 43 {
        parse_simple_string(s)
    } else if s[0] == 45 {
        parse_simple_error(s)
    } else if s[0] == 58 {
        parse_integer(s)
    } else if s[0] == 36 {
        null_first(s, parse_sentinel(s, bulk_null_literal(), FrameV::BulkNull), parse_bulk(s))
    } else if s[0] == 42 {
        null_first(s, parse_sentinel(s, null_array_literal(), FrameV::NullArray), parse_array(s))
    } else if s[0] == 95 {
        parse_null(s)
    } else if s[0] == 35 {
        parse_boolean(s)
    } else if s[0] == 44 {
        parse_double(s)
    } else if s[0] == 40 {
        parse_big_number(s)
    } else {
        Err(RespError::InvalidFrameType(s[0]))
    }
}

/// An array: its header, then, once the predicted length of all its
/// elements is buffered, the elements themselves.
pub open spec fn parse_array(s: Seq<u8>) -> Result<(FrameV, nat), RespError>
    decreases s.len(), 1nat,
{
    match header(s, 42) {
        Ok((e, n)) => if e + 2 > s.len() {
            Err(RespError::NotComplete)
        } else {
            match predict_items(s.skip(e + 2int), n) {
                Ok(m) => if s.len() < e + 2 + m {
                    Err(RespError::NotComplete)
                } else {
                    match parse_items(s.skip(e + 2int), n) {
                        Ok((fs, l)) => Ok((FrameV::Array(fs), e + 2 + l)),
                        Err(x) => Err(x),
                    }
                },
                Err(x) => Err(x),
            }
        },
        Err(x) => Err(x),
    }
}

/// `k` frames decoded one after another from the front of `t`.
pub open spec fn parse_items(t: Seq<u8>, k: nat) -> Result<(Seq<FrameV>, nat), RespError>
    decreases t.len(), 3 + k,
{
    if k == 0 {
        Ok((Seq::empty(), 0))
    } else {
        match parse(t) {
            Ok((f, l)) => if l > t.len() {
                Err(RespError::NotComplete)
            } else {
                match parse_items(t.skip(l as int), (k - 1) as nat) {
                    Ok((fs, m)) => Ok((seq![f] + fs, l + m)),
                    Err(x) => Err(x),
                }
            },
            Err(x) => Err(x),
        }
    }
}

/// A length that a `usize` can hold, or the error for one that it cannot.
pub open spec fn fit(n: nat) -> Result<nat, RespError> {
    if n <= usize::MAX {
        Ok(n)
    } else {
        Err(RespError::InvalidFrameLength)
    }
}

/// The length of a single-line frame tagged `tag`: up to and including its
/// terminator.
pub open spec fn predict_tagged(s: Seq<u8>, tag: u8) -> Result<nat, RespError> {
    match simple_end(s, seq![tag]) {
        Ok(e) => Ok(e + 2),
        Err(x) => Err(x),
    }
}

/// The length of a frame written as a fixed literal.
pub open spec fn predict_fixed(s: Seq<u8>, lit: Seq<u8>) -> Result<nat, RespError> {
    match fixed(s, lit) {
        Ok(_) => Ok(lit.len()),
        Err(x) => Err(x),
    }
}

pub open spec fn predict_bulk(s: Seq<u8>) -> Result<nat, RespError> {
    match header(s, 36) {
        Ok((e, n)) => fit(e + 2 + n + 2),
        Err(x) => Err(x),
    }
}

/// Tries the null sentinel first, as decoding does: a beginning of it is
/// incomplete, bytes that differ go on to the general header.
pub open spec fn predict_null_first(
    s: Seq<u8>,
    lit: Seq<u8>,
    general: Result<nat, RespError>,
) -> Result<nat, RespError> {
    match sentinel(s, lit) {
        Ok(_) => Ok(lit.len()),
        Err(RespError::NotComplete) => Err(RespError::NotComplete),
        Err(_) => general,
    }
}

/// How many bytes the frame at the front of `s` takes, read from headers
/// and terminators alone.
pub open spec fn predict(s: Seq<u8>) -> Result<nat, RespError>
    decreases s.len(), 2nat,
{
    if s.len() == 0 {
        Err(RespError::NotComplete)
    } else if s[0] == 43 || s[0] == 45 || s[0] == 58 || s[0] == 95 || s[0] == 35 || s[0] == 44
        || s[0] == 40 {
        predict_tagged(s, s[0])
    } else if s[0] == 36 {
        predict_null_first(s, bulk_null_literal(), predict_bulk(s))
    } else if s[0] == 42 {
        predict_null_first(s, null_array_literal(), predict_array(s))
    } else {
        Err(RespError::InvalidFrameType(s[0]))
    }
}

pub open spec fn predict_array(s: Seq<u8>) -> Result<nat, RespError>
    decreases s.len(), 1nat,
{
    match header(s, 42) {
        Ok((e, n)) => if e + 2 > s.len() {
            Err(RespError::NotComplete)
        } else {
            match predict_items(s.skip(e + 2int), n) {
                Ok(m) => fit(e + 2 + m),
                Err(x) => Err(x),
            }
        },
        Err(x) => Err(x),
    }
}

/// The total predicted length of `k` frames one after another; past the
/// end of `t` only the last one may reach.
pub open spec fn predict_items(t: Seq<u8>, k: nat) -> Result<nat, RespError>
    decreases t.len(), 3 + k,
{
    if k == 0 {
        Ok(0)
    } else {
        match predict(t) {
            Ok(l) => if k == 1 {
                Ok(l)
            } else if l > t.len() {
                Err(RespError::NotComplete)
            } else {
                match predict_items(t.skip(l as int), (k - 1) as nat) {
                    Ok(m) => fit(l + m),
                    Err(x) => Err(x),
                }
            },
            Err(x) => Err(x),
        }
    }
}

} // verus!
