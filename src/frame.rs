//! Frame values and the byte-level work on them: decoding from a slice at an
//! offset, predicting a frame's length, and encoding.
use crate::buffer::{
    crlf, fixed_at, lemma_line_end, sentinel_at, simple_end, simple_end_at, text_of,
};
use crate::decimal::BigNumber;
use crate::error::RespError;
use crate::model::{
    bulk_null_literal, false_literal, header, line_text, null_array_literal, null_literal, parse,
    parse_array, parse_big_number, parse_boolean, parse_bulk, parse_bulk_null, parse_double,
    parse_integer, parse_items, parse_null, parse_null_array, parse_simple_error,
    parse_simple_string, predict, predict_array, predict_bulk, predict_fixed, predict_items,
    predict_tagged, ser, ser_items, tagged_line, true_literal, FrameV,
};
use crate::number::{nat_text, parse_i64, parse_usize, push_decimal, push_signed};
use vstd::prelude::*;

verus! {

broadcast use vstd::std_specs::vec::group_vec_axioms;

/// A line of text tagged `+`.
#[derive(Debug, Clone, PartialEq)]
pub struct SimpleString(pub String);

/// A line of error text tagged `-`.
#[derive(Debug, Clone, PartialEq)]
pub struct SimpleError(pub String);

/// The null value `_`.
#[derive(Debug, Clone, PartialEq)]
pub struct SimpleNull;

/// A 64-bit float, held as the text of its line (`123.456`, `+1.23456e8`).
#[derive(Debug, Clone, PartialEq)]
pub struct Double(pub Vec<u8>);

/// A length-prefixed run of arbitrary bytes.
#[derive(Debug, Clone, PartialEq)]
pub struct BulkString(pub Vec<u8>);

/// The null bulk string `$-1`.
#[derive(Debug, Clone, PartialEq)]
pub struct BulkNullString;

/// The null array `*-1`.
#[derive(Debug, Clone, PartialEq)]
pub struct RespNullArray;

/// A counted sequence of frames.
#[derive(Debug, PartialEq)]
pub struct RespFrameArray(pub Vec<RespFrame>);

/// One protocol value.
#[derive(Debug, PartialEq)]
pub enum RespFrame {
    Strings(SimpleString),
    Errors(SimpleError),
    Integers(i64),
    Nulls(SimpleNull),
    Booleans(bool),
    Doubles(Double),
    BigNumbers(BigNumber),
    BulkStrings(BulkString),
    BulkNullStrings(BulkNullString),
    NullArray(RespNullArray),
    Array(RespFrameArray),
}

/// The value that a frame stands for.
pub open spec fn frame_model(f: RespFrame) -> FrameV
    decreases f, 0nat,
{
    match f {
        RespFrame::Strings(s) => FrameV::SimpleString(s.0@),
        RespFrame::Errors(s) => FrameV::SimpleError(s.0@),
        RespFrame::Integers(v) => FrameV::Integer(v as int),
        RespFrame::Nulls(_) => FrameV::Null,
        RespFrame::Booleans(b) => FrameV::Boolean(b),
        RespFrame::Doubles(d) => FrameV::Double(d.0@),
        RespFrame::BigNumbers(b) => FrameV::BigNumber(b.spec_negative(), b.spec_text()),
        RespFrame::BulkStrings(b) => FrameV::BulkString(b.0@),
        RespFrame::BulkNullStrings(_) => FrameV::BulkNull,
        RespFrame::NullArray(_) => FrameV::NullArray,
        RespFrame::Array(a) => FrameV::Array(frames_model(a.0@, a.0@.len())),
    }
}

/// The values of the first `n` frames of `s`.
pub open spec fn frames_model(s: Seq<RespFrame>, n: nat) -> Seq<FrameV>
    decreases s, n,
{
    if n == 0 || n > s.len() {
        Seq::empty()
    } else {
        frames_model(s, (n - 1) as nat).push(frame_model(s[n - 1]))
    }
}

impl View for RespFrame {
    type V = FrameV;

    open spec fn view(&self) -> FrameV {
        frame_model(*self)
    }
}

pub proof fn lemma_frames_model(s: Seq<RespFrame>, t: Seq<RespFrame>, n: nat)
    requires
        n <= s.len(),
        n <= t.len(),
        forall|i: int| 0 <= i < n ==> s[i] == t[i],
    ensures
        frames_model(s, n) == frames_model(t, n),
        frames_model(s, n).len() == n,
        forall|i: int| 0 <= i < n ==> frames_model(s, n)[i] == frame_model(#[trigger] s[i]),
    decreases n,
{
    if n > 0 {
        lemma_frames_model(s, t, (n - 1) as nat);
    }
}

/// The decoded frame and the count of bytes it took, as the model has them.
pub open spec fn decoded(r: Result<(RespFrame, usize), RespError>, m: Result<(FrameV, nat), RespError>) -> bool {
    match m {
        Ok((f, l)) => r matches Ok((x, n)) && frame_model(x) == f && n as nat == l,
        Err(e) => r == Err::<(RespFrame, usize), RespError>(e),
    }
}

/// A predicted length as the model has it.
pub open spec fn predicted(r: Result<usize, RespError>, m: Result<nat, RespError>) -> bool {
    match m {
        Ok(n) => r == Ok::<usize, RespError>(n as usize) && n <= usize::MAX,
        Err(e) => r == Err::<usize, RespError>(e),
    }
}

proof fn lemma_skip_skip(s: Seq<u8>, a: int, b: int)
    requires
        0 <= a,
        0 <= b,
        a + b <= s.len(),
    ensures
        s.skip(a).skip(b) == s.skip(a + b),
{
    assert(s.skip(a).skip(b) =~= s.skip(a + b));
}

/// The bytes `buf[from..to]`.
fn copy_range(buf: &[u8], from: usize, to: usize) -> (r: Vec<u8>)
    requires
        from <= to <= buf@.len(),
    ensures
        r@ == buf@.subrange(from as int, to as int),
{
    let mut r: Vec<u8> = Vec::new();
    let mut i: usize = from;
    while i < to
        invariant
            from <= i <= to <= buf@.len(),
            r@ == buf@.subrange(from as int, i as int),
        decreases to - i,
    {
        r.push(buf[i]);
        assert(r@ =~= buf@.subrange(from as int, i as int + 1));
        i = i + 1;
    }
    r
}

/// Appends every byte of `b`.
fn push_all(out: &mut Vec<u8>, b: &[u8])
    ensures
        final(out)@ == old(out)@ + b@,
{
    let ghost start = out@;
    let mut i: usize = 0;
    while i < b.len()
        invariant
            i <= b@.len(),
            out@ == start + b@.take(i as int),
        decreases b@.len() - i,
    {
        out.push(b[i]);
        assert(out@ =~= start + b@.take(i as int + 1));
        i = i + 1;
    }
    assert(b@.take(b@.len() as int) =~= b@);
}

fn push_crlf(out: &mut Vec<u8>)
    ensures
        final(out)@ == old(out)@ + crlf(),
{
    out.push(13u8);
    out.push(10u8);
    assert(out@ =~= old(out)@ + crlf());
}

/// Where the line of a frame tagged `tag` ends, read from `pos` on.
fn tag_line_at(buf: &[u8], pos: usize, tag: u8) -> (r: Result<usize, RespError>)
    requires
        pos <= buf@.len(),
    ensures
        r matches Ok(e) ==> simple_end(buf@.skip(pos as int), seq![tag]) == Ok::<nat, RespError>(
            e as nat,
        ) && 1 <= e && pos + e + 2 <= buf.len(),
        r matches Err(x) ==> simple_end(buf@.skip(pos as int), seq![tag]) == Err::<nat, RespError>(
            x,
        ),
{
    let t = vec![tag];
    assert(t@ =~= seq![tag]);
    let r = simple_end_at(buf, pos, t.as_slice());
    proof {
        lemma_line_end(buf@.skip(pos as int), 1);
    }
    r
}

/// The text of the line that ends at `pos + e`.
fn line_bytes(buf: &[u8], pos: usize, e: usize) -> (r: Vec<u8>)
    requires
        1 <= e,
        pos + e <= buf.len(),
    ensures
        r@ == line_text(buf@.skip(pos as int), e as nat),
{
    let r = copy_range(buf, pos + 1, pos + e);
    assert(r@ =~= line_text(buf@.skip(pos as int), e as nat));
    r
}

/// A header line `<tag><count>`: where it ends and the count.
fn header_at(buf: &[u8], pos: usize, tag: u8) -> (r: Result<(usize, usize), RespError>)
    requires
        pos <= buf@.len(),
    ensures
        r matches Ok((e, n)) ==> header(buf@.skip(pos as int), tag) == Ok::<(nat, nat), RespError>(
            (e as nat, n as nat),
        ) && 1 <= e && pos + e + 2 <= buf.len(),
        r matches Err(x) ==> header(buf@.skip(pos as int), tag) == Err::<(nat, nat), RespError>(x),
{
    let e = tag_line_at(buf, pos, tag)?;
    let text = line_bytes(buf, pos, e);
    match parse_usize(text.as_slice()) {
        Some(n) => Ok((e, n)),
        None => Err(RespError::ParseIntError),
    }
}


/// The result of decoding the first items, put in front of the rest.
pub open spec fn glue(
    prefix: Seq<FrameV>,
    off: nat,
    rest: Result<(Seq<FrameV>, nat), RespError>,
) -> Result<(Seq<FrameV>, nat), RespError> {
    match rest {
        Ok((fs, m)) => Ok((prefix + fs, off + m)),
        Err(x) => Err(x),
    }
}

pub(crate) fn simple_string_at(buf: &[u8], pos: usize) -> (r: Result<(RespFrame, usize), RespError>)
    requires
        pos <= buf@.len(),
    ensures
        decoded(r, parse_simple_string(buf@.skip(pos as int))),
        r matches Ok((_, n)) ==> pos + n <= buf.len(),
{
    let e = tag_line_at(buf, pos, 43)?;
    let text = text_of(line_bytes(buf, pos, e).as_slice());
    Ok((RespFrame::Strings(SimpleString(text)), e + 2))
}

pub(crate) fn simple_error_at(buf: &[u8], pos: usize) -> (r: Result<(RespFrame, usize), RespError>)
    requires
        pos <= buf@.len(),
    ensures
        decoded(r, parse_simple_error(buf@.skip(pos as int))),
        r matches Ok((_, n)) ==> pos + n <= buf.len(),
{
    let e = tag_line_at(buf, pos, 45)?;
    let text = text_of(line_bytes(buf, pos, e).as_slice());
    Ok((RespFrame::Errors(SimpleError(text)), e + 2))
}

pub(crate) fn integer_at(buf: &[u8], pos: usize) -> (r: Result<(RespFrame, usize), RespError>)
    requires
        pos <= buf@.len(),
    ensures
        decoded(r, parse_integer(buf@.skip(pos as int))),
        r matches Ok((_, n)) ==> pos + n <= buf.len(),
{
    let e = tag_line_at(buf, pos, 58)?;
    let text = line_bytes(buf, pos, e);
    match parse_i64(text.as_slice()) {
        Some(v) => Ok((RespFrame::Integers(v), e + 2)),
        None => Err(RespError::ParseIntError),
    }
}

pub(crate) fn double_at(buf: &[u8], pos: usize) -> (r: Result<(RespFrame, usize), RespError>)
    requires
        pos <= buf@.len(),
    ensures
        decoded(r, parse_double(buf@.skip(pos as int))),
        r matches Ok((_, n)) ==> pos + n <= buf.len(),
{
    let e = tag_line_at(buf, pos, 44)?;
    let text = line_bytes(buf, pos, e);
    Ok((RespFrame::Doubles(Double(text)), e + 2))
}

pub(crate) fn big_number_at(buf: &[u8], pos: usize) -> (r: Result<(RespFrame, usize), RespError>)
    requires
        pos <= buf@.len(),
    ensures
        decoded(r, parse_big_number(buf@.skip(pos as int))),
        r matches Ok((_, n)) ==> pos + n <= buf.len(),
{
    let e = tag_line_at(buf, pos, 40)?;
    let text = text_of(line_bytes(buf, pos, e).as_slice());
    let b = BigNumber::new(text.as_str())?;
    Ok((RespFrame::BigNumbers(b), e + 2))
}

pub(crate) fn null_at(buf: &[u8], pos: usize) -> (r: Result<(RespFrame, usize), RespError>)
    requires
        pos <= buf@.len(),
    ensures
        decoded(r, parse_null(buf@.skip(pos as int))),
        r matches Ok((_, n)) ==> pos + n <= buf.len(),
{
    let lit = vec![95u8, 13, 10];
    assert(lit@ =~= null_literal());
    fixed_at(buf, pos, lit.as_slice())?;
    Ok((RespFrame::Nulls(SimpleNull), 3))
}

pub(crate) fn boolean_at(buf: &[u8], pos: usize) -> (r: Result<(RespFrame, usize), RespError>)
    requires
        pos <= buf@.len(),
    ensures
        decoded(r, parse_boolean(buf@.skip(pos as int))),
        r matches Ok((_, n)) ==> pos + n <= buf.len(),
{
    let t = vec![35u8, 116, 13, 10];
    assert(t@ =~= true_literal());
    match fixed_at(buf, pos, t.as_slice()) {
        Ok(()) => Ok((RespFrame::Booleans(true), 4)),
        Err(RespError::NotComplete) => Err(RespError::NotComplete),
        Err(_) => {
            let f = vec![35u8, 102, 13, 10];
            assert(f@ =~= false_literal());
            fixed_at(buf, pos, f.as_slice())?;
            Ok((RespFrame::Booleans(false), 4))
        },
    }
}

pub(crate) fn bulk_null_at(buf: &[u8], pos: usize) -> (r: Result<(RespFrame, usize), RespError>)
    requires
        pos <= buf@.len(),
    ensures
        decoded(r, parse_bulk_null(buf@.skip(pos as int))),
        r matches Ok((_, n)) ==> pos + n <= buf.len(),
{
    let lit = vec![36u8, 45, 49, 13, 10];
    assert(lit@ =~= bulk_null_literal());
    fixed_at(buf, pos, lit.as_slice())?;
    Ok((RespFrame::BulkNullStrings(BulkNullString), 5))
}

pub(crate) fn null_array_at(buf: &[u8], pos: usize) -> (r: Result<(RespFrame, usize), RespError>)
    requires
        pos <= buf@.len(),
    ensures
        decoded(r, parse_null_array(buf@.skip(pos as int))),
        r matches Ok((_, n)) ==> pos + n <= buf.len(),
{
    let lit = vec![42u8, 45, 49, 13, 10];
    assert(lit@ =~= null_array_literal());
    fixed_at(buf, pos, lit.as_slice())?;
    Ok((RespFrame::NullArray(RespNullArray), 5))
}

pub(crate) fn bulk_at(buf: &[u8], pos: usize) -> (r: Result<(RespFrame, usize), RespError>)
    requires
        pos <= buf@.len(),
    ensures
        decoded(r, parse_bulk(buf@.skip(pos as int))),
        r matches Ok((_, n)) ==> pos + n <= buf.len(),
{
    let (e, n) = header_at(buf, pos, 36)?;
    let start = pos + e + 2;
    let avail = buf.len() - start;
    if avail < n || avail - n < 2 {
        return Err(RespError::NotComplete);
    }
    let payload = copy_range(buf, start, start + n);
    assert(payload@ =~= buf@.skip(pos as int).subrange(e + 2, e + 2 + n));
    Ok((RespFrame::BulkStrings(BulkString(payload)), e + 2 + n + 2))
}

/// Decodes the frame at `pos`, dispatching on its tag byte.
pub(crate) fn frame_at(buf: &[u8], pos: usize) -> (r: Result<(RespFrame, usize), RespError>)
    requires
        pos <= buf@.len(),
    ensures
        decoded(r, parse(buf@.skip(pos as int))),
        r matches Ok((_, n)) ==> pos + n <= buf.len(),
    decreases buf@.len() - pos, 2nat,
{
    if pos == buf.len() {
        return Err(RespError::NotComplete);
    }
    let tag = buf[pos];
    if tag == 43 {
        simple_string_at(buf, pos)
    } else if tag == 45 {
        simple_error_at(buf, pos)
    } else if tag == 58 {
        integer_at(buf, pos)
    } else if tag == 36 {
        let lit = vec![36u8, 45, 49, 13, 10];
        assert(lit@ =~= bulk_null_literal());
        match sentinel_at(buf, pos, lit.as_slice()) {
            Ok(()) => Ok((RespFrame::BulkNullStrings(BulkNullString), 5)),
            Err(RespError::NotComplete) => Err(RespError::NotComplete),
            Err(_) => bulk_at(buf, pos),
        }
    } else if tag == 42 {
        let lit = vec![42u8, 45, 49, 13, 10];
        assert(lit@ =~= null_array_literal());
        match sentinel_at(buf, pos, lit.as_slice()) {
            Ok(()) => Ok((RespFrame::NullArray(RespNullArray), 5)),
            Err(RespError::NotComplete) => Err(RespError::NotComplete),
            Err(_) => array_at(buf, pos),
        }
    } else if tag == 95 {
        null_at(buf, pos)
    } else if tag == 35 {
        boolean_at(buf, pos)
    } else if tag == 44 {
        double_at(buf, pos)
    } else if tag == 40 {
        big_number_at(buf, pos)
    } else {
        Err(RespError::InvalidFrameType(tag))
    }
}

/// Decodes an array: header, prediction of every element, then the elements.
pub(crate) fn array_at(buf: &[u8], pos: usize) -> (r: Result<(RespFrame, usize), RespError>)
    requires
        pos <= buf@.len(),
    ensures
        decoded(r, parse_array(buf@.skip(pos as int))),
        r matches Ok((_, n)) ==> pos + n <= buf.len(),
    decreases buf@.len() - pos, 1nat,
{
    let ghost s = buf@.skip(pos as int);
    let (e, n) = header_at(buf, pos, 42)?;
    let start = pos + e + 2;
    proof {
        lemma_skip_skip(buf@, pos as int, e + 2);
    }
    let m = calc_total_length(buf, start, n)?;
    if buf.len() - start < m {
        return Err(RespError::NotComplete);
    }
    let mut items: Vec<RespFrame> = Vec::new();
    let mut cur = start;
    let mut i: usize = 0;
    assert(parse_items(buf@.skip(start as int), n as nat) == glue(
        frames_model(items@, items@.len()),
        (cur - start) as nat,
        parse_items(buf@.skip(cur as int), (n - i) as nat),
    )) by {
        match parse_items(buf@.skip(start as int), n as nat) {
            Ok((fs, l)) => {
                assert(frames_model(items@, 0) + fs =~= fs);
            },
            Err(_) => {},
        }
    }
    while i < n
        invariant
            pos < start <= cur <= buf.len(),
            s == buf@.skip(pos as int),
            start == pos + e + 2,
            header(s, 42) == Ok::<(nat, nat), RespError>((e as nat, n as nat)),
            s.skip(e + 2) == buf@.skip(start as int),
            predict_items(buf@.skip(start as int), n as nat) == Ok::<nat, RespError>(m as nat),
            start + m <= buf.len(),
            i <= n,
            items@.len() == i,
            parse_items(buf@.skip(start as int), n as nat) == glue(
                frames_model(items@, items@.len()),
                (cur - start) as nat,
                parse_items(buf@.skip(cur as int), (n - i) as nat),
            ),
        decreases n - i,
    {
        let ghost before = items@;
        match frame_at(buf, cur) {
            Ok((x, l)) => {
                proof {
                    lemma_skip_skip(buf@, cur as int, l as int);
                }
                items.push(x);
                proof {
                    lemma_frames_model(before, items@, i as nat);
                    let p = frames_model(before, i as nat);
                    assert(frames_model(items@, items@.len()) == p.push(frame_model(x)));
                    match parse_items(buf@.skip(cur + l), (n - i - 1) as nat) {
                        Ok((fs, _)) => {
                            assert(p + (seq![frame_model(x)] + fs) =~= p.push(frame_model(x)) + fs);
                        },
                        Err(_) => {},
                    }
                }
                cur = cur + l;
                i = i + 1;
            },
            Err(x) => {
                return Err(x);
            },
        }
    }
    proof {
        let p = frames_model(items@, items@.len());
        assert(p + Seq::<FrameV>::empty() =~= p);
    }
    Ok((RespFrame::Array(RespFrameArray(items)), cur - pos))
}

/// Predicts the length of the frame at `pos` from headers and terminators alone.
pub(crate) fn expect_at(buf: &[u8], pos: usize) -> (r: Result<usize, RespError>)
    requires
        pos <= buf@.len(),
    ensures
        predicted(r, predict(buf@.skip(pos as int))),
    decreases buf@.len() - pos, 2nat,
{
    if pos == buf.len() {
        return Err(RespError::NotComplete);
    }
    let tag = buf[pos];
    if tag == 43 || tag == 45 || tag == 58 || tag == 95 || tag == 35 || tag == 44 || tag == 40 {
        expect_tagged(buf, pos, tag)
    } else if tag == 36 {
        let lit = vec![36u8, 45, 49, 13, 10];
        assert(lit@ =~= bulk_null_literal());
        match sentinel_at(buf, pos, lit.as_slice()) {
            Ok(()) => Ok(5),
            Err(RespError::NotComplete) => Err(RespError::NotComplete),
            Err(_) => expect_bulk_at(buf, pos),
        }
    } else if tag == 42 {
        let lit = vec![42u8, 45, 49, 13, 10];
        assert(lit@ =~= null_array_literal());
        match sentinel_at(buf, pos, lit.as_slice()) {
            Ok(()) => Ok(5),
            Err(RespError::NotComplete) => Err(RespError::NotComplete),
            Err(_) => expect_array_at(buf, pos),
        }
    } else {
        Err(RespError::InvalidFrameType(tag))
    }
}

/// The length of the bulk string at `pos`, read from its header.
pub(crate) fn expect_bulk_at(buf: &[u8], pos: usize) -> (r: Result<usize, RespError>)
    requires
        pos <= buf@.len(),
    ensures
        predicted(r, predict_bulk(buf@.skip(pos as int))),
{
    let (e, n) = header_at(buf, pos, 36)?;
    let head = e + 2;
    if usize::MAX - head < 2 || n > usize::MAX - head - 2 {
        Err(RespError::InvalidFrameLength)
    } else {
        Ok(e + 2 + n + 2)
    }
}

pub(crate) fn expect_array_at(buf: &[u8], pos: usize) -> (r: Result<usize, RespError>)
    requires
        pos <= buf@.len(),
    ensures
        predicted(r, predict_array(buf@.skip(pos as int))),
    decreases buf@.len() - pos, 1nat,
{
    let (e, n) = header_at(buf, pos, 42)?;
    proof {
        lemma_skip_skip(buf@, pos as int, e + 2);
    }
    let m = calc_total_length(buf, pos + e + 2, n)?;
    if m > usize::MAX - (e + 2) {
        Err(RespError::InvalidFrameLength)
    } else {
        Ok(e + 2 + m)
    }
}

/// The total predicted length of `k` frames one after another from `cur` on.
pub(crate) fn calc_total_length(buf: &[u8], cur: usize, k: usize) -> (r: Result<usize, RespError>)
    requires
        cur <= buf@.len(),
    ensures
        predicted(r, predict_items(buf@.skip(cur as int), k as nat)),
    decreases buf@.len() - cur, 3 + k,
{
    if k == 0 {
        return Ok(0);
    }
    let l = expect_at(buf, cur)?;
    if k == 1 {
        return Ok(l);
    }
    if l > buf.len() - cur {
        return Err(RespError::NotComplete);
    }
    proof {
        lemma_skip_skip(buf@, cur as int, l as int);
    }
    let m = calc_total_length(buf, cur + l, k - 1)?;
    if m > usize::MAX - l {
        Err(RespError::InvalidFrameLength)
    } else {
        Ok(l + m)
    }
}


/// The length of the single-line frame tagged `tag` at `pos`.
pub(crate) fn expect_tagged(buf: &[u8], pos: usize, tag: u8) -> (r: Result<usize, RespError>)
    requires
        pos <= buf@.len(),
    ensures
        predicted(r, predict_tagged(buf@.skip(pos as int), tag)),
{
    let e = tag_line_at(buf, pos, tag)?;
    Ok(e + 2)
}

/// The length of the literal `lit` at the front of `buf`, once it is there.
pub(crate) fn expect_fixed(buf: &[u8], lit: &[u8]) -> (r: Result<usize, RespError>)
    ensures
        predicted(r, predict_fixed(buf@, lit@)),
{
    assert(buf@.skip(0) =~= buf@);
    fixed_at(buf, 0, lit)?;
    Ok(lit.len())
}

/// Appends the wire bytes of `f`.
pub(crate) fn encode_into(f: &RespFrame, out: &mut Vec<u8>)
    ensures
        final(out)@ == old(out)@ + ser(frame_model(*f)),
    decreases f,
{
    let ghost start = out@;
    match f {
        RespFrame::Strings(s) => {
            out.push(43u8);
            push_all(out, s.0.as_str().as_bytes());
            push_crlf(out);
        },
        RespFrame::Errors(s) => {
            out.push(45u8);
            push_all(out, s.0.as_str().as_bytes());
            push_crlf(out);
        },
        RespFrame::Integers(v) => {
            out.push(58u8);
            push_signed(out, *v);
            push_crlf(out);
        },
        RespFrame::Nulls(_) => {
            out.push(95u8);
            push_crlf(out);
        },
        RespFrame::Booleans(b) => {
            out.push(35u8);
            out.push(if *b { 116u8 } else { 102u8 });
            push_crlf(out);
        },
        RespFrame::Doubles(d) => {
            out.push(44u8);
            push_all(out, d.0.as_slice());
            push_crlf(out);
        },
        RespFrame::BigNumbers(b) => {
            out.push(40u8);
            if !b.is_negative() {
                out.push(43u8);
            }
            push_all(out, b.text().as_bytes());
            push_crlf(out);
        },
        RespFrame::BulkStrings(b) => {
            out.push(36u8);
            push_decimal(out, b.0.len() as u64);
            push_crlf(out);
            push_all(out, b.0.as_slice());
            push_crlf(out);
        },
        RespFrame::BulkNullStrings(_) => {
            out.push(36u8);
            out.push(45u8);
            out.push(49u8);
            push_crlf(out);
        },
        RespFrame::NullArray(_) => {
            out.push(42u8);
            out.push(45u8);
            out.push(49u8);
            push_crlf(out);
        },
        RespFrame::Array(a) => {
            let ghost fsm = frames_model(a.0@, a.0@.len());
            proof {
                lemma_frames_model(a.0@, a.0@, a.0@.len());
            }
            out.push(42u8);
            push_decimal(out, a.0.len() as u64);
            push_crlf(out);
            let ghost head = out@;
            assert(head == start + tagged_line(42, nat_text(fsm.len())));
            let mut i: usize = 0;
            while i < a.0.len()
                invariant
                    i <= a.0@.len(),
                    *f == RespFrame::Array(*a),
                    fsm == frames_model(a.0@, a.0@.len()),
                    fsm.len() == a.0@.len(),
                    forall|j: int| 0 <= j < a.0@.len() ==> fsm[j] == frame_model(#[trigger] a.0@[j]),
                    out@ == head + ser_items(fsm, i as nat),
                decreases a.0@.len() - i,
            {
                proof {
                    vstd::std_specs::vec::axiom_vec_index_decreases(a.0, i as int);
                    assert(decreases_to!(*f => (*f)->Array_0));
                    assert(decreases_to!(*f => (*f)->Array_0.0));
                }
                encode_into(&a.0[i], out);
                assert(ser_items(fsm, i as nat + 1) == ser_items(fsm, i as nat) + ser(fsm[i as int]));
                i = i + 1;
            }
        },
    }
    assert(out@ =~= start + ser(frame_model(*f)));
}

} // verus!
