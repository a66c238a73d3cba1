//! The byte buffer and the primitives that every codec shares: finding a
//! line terminator, checking a tag, matching a fixed literal.
use crate::error::RespError;
use crate::number::{parse_unsigned, parse_usize};
use bytes::Buf;
use bytes::BytesMut;
use vstd::prelude::*;
use vstd::string::StringSliceAdditionalSpecFns;
use vstd::utf8::{decode_utf8, valid_utf8};

verus! {

#[verifier::external_type_specification]
#[verifier::external_body]
pub struct ExBytesMut(BytesMut);

/// The readable bytes of a buffer, front first.
pub uninterp spec fn buffer_bytes(b: BytesMut) -> Seq<u8>;

/// Relies on `Deref<Target = [u8]>` for `BytesMut`, which hands out its readable bytes.
#[verifier::external_body]
pub(crate) fn readable(b: &BytesMut) -> (r: &[u8])
    ensures
        r@ == buffer_bytes(*b),
{
    b
}

/// Relies on `Buf::advance` for `BytesMut`: it drops the first `cnt` bytes
/// and panics when fewer are readable.
#[verifier::external_body]
pub(crate) fn advance(b: &mut BytesMut, cnt: usize)
    requires
        cnt <= buffer_bytes(*old(b)).len(),
    ensures
        buffer_bytes(*final(b)) == buffer_bytes(*old(b)).skip(cnt as int),
{
    b.advance(cnt)
}

/// What `String::from_utf8_lossy` makes of a byte sequence.
pub uninterp spec fn lossy_text(b: Seq<u8>) -> Seq<char>;

/// Relies on `String::from_utf8_lossy`: valid UTF-8 comes back as the text
/// it encodes; anything else gets replacement characters.
#[verifier::external_body]
pub(crate) fn text_of(b: &[u8]) -> (r: String)
    ensures
        r@ == lossy_text(b@),
        valid_utf8(b@) ==> r@ == decode_utf8(b@),
{
    String::from_utf8_lossy(b).into_owned()
}

/// The text that a line's bytes stand for: the UTF-8 they encode, or their
/// lossy reading when they are not valid UTF-8.
pub open spec fn text_from(b: Seq<u8>) -> Seq<char> {
    if valid_utf8(b) {
        decode_utf8(b)
    } else {
        lossy_text(b)
    }
}

/// Two bytes, CR LF.
pub open spec fn crlf() -> Seq<u8> {
    seq![13u8, 10u8]
}

pub open spec fn crlf_at(s: Seq<u8>, i: int) -> bool {
    0 <= i && i + 1 < s.len() && s[i] == 13 && s[i + 1] == 10
}

/// The index of the first terminator at or after `start`, if there is one.
pub open spec fn line_end(s: Seq<u8>, start: int) -> Option<nat>
    decreases s.len() - start,
{
    if start < 0 || start + 1 >= s.len() {
        None
    } else if crlf_at(s, start) {
        Some(start as nat)
    } else {
        line_end(s, start + 1)
    }
}

/// `s` begins with `p`.
pub open spec fn starts_with(s: Seq<u8>, p: Seq<u8>) -> bool {
    p.len() <= s.len() && s.take(p.len() as int) == p
}

/// Where the single line of a frame tagged by `p` ends: too short or without
/// a terminator yet is incomplete, a wrong tag is malformed.
pub open spec fn simple_end(s: Seq<u8>, p: Seq<u8>) -> Result<nat, RespError> {
    if s.len() < 3 {
        Err(RespError::NotComplete)
    } else if !starts_with(s, p) {
        Err(RespError::InvalidFrame)
    } else {
        match line_end(s, 1) {
            Some(e) => Ok(e),
            None => Err(RespError::NotComplete),
        }
    }
}

/// Matching a fixed literal at the front: too short is incomplete, a
/// mismatch is malformed.
pub open spec fn fixed(s: Seq<u8>, lit: Seq<u8>) -> Result<(), RespError> {
    if s.len() < lit.len() {
        Err(RespError::NotComplete)
    } else if s.take(lit.len() as int) != lit {
        Err(RespError::InvalidFrame)
    } else {
        Ok(())
    }
}

/// Testing for a sentinel literal at the front: it is there, or the bytes
/// present are a beginning of it and more are needed, or they already
/// differ from it.
pub open spec fn sentinel(s: Seq<u8>, lit: Seq<u8>) -> Result<(), RespError> {
    if starts_with(s, lit) {
        Ok(())
    } else if s.len() < lit.len() && lit.take(s.len() as int) == s {
        Err(RespError::NotComplete)
    } else {
        Err(RespError::InvalidFrame)
    }
}

/// Bytes that differ from a sentinel at some index are not it.
pub proof fn lemma_sentinel_differs(s: Seq<u8>, lit: Seq<u8>, i: int)
    requires
        0 <= i < s.len(),
        i < lit.len(),
        s[i] != lit[i],
    ensures
        sentinel(s, lit) == Err::<(), RespError>(RespError::InvalidFrame),
{
    if lit.len() <= s.len() {
        assert(s.take(lit.len() as int)[i] != lit[i]);
    }
    if s.len() < lit.len() {
        assert(lit.take(s.len() as int)[i] != s[i]);
    }
}

pub proof fn lemma_line_end(s: Seq<u8>, start: int)
    ensures
        line_end(s, start) matches Some(e) ==> start <= e && crlf_at(s, e as int) && e + 2 <= s.len()
            && forall|i: int| start <= i < e ==> !crlf_at(s, i),
        line_end(s, start) is None ==> forall|i: int| 0 <= start <= i ==> !crlf_at(s, i),
    decreases s.len() - start,
{
    if !(start < 0 || start + 1 >= s.len()) && !crlf_at(s, start) {
        lemma_line_end(s, start + 1);
    }
}

/// The first terminator at or after `start`, in `buf` read from `pos` on.
fn line_end_from(buf: &[u8], pos: usize, start: usize) -> (r: Option<usize>)
    requires
        pos <= buf@.len(),
    ensures
        r matches Some(e) ==> line_end(buf@.skip(pos as int), start as int) == Some(e as nat),
        r is None ==> line_end(buf@.skip(pos as int), start as int) is None,
{
    let ghost t = buf@.skip(pos as int);
    let blen = buf.len();
    let n = blen - pos;
    let mut k: usize = start;
    while n > 0 && k < n - 1
        invariant
            pos <= buf@.len(),
            blen == buf@.len(),
            n == buf@.len() - pos,
            t == buf@.skip(pos as int),
            n == t.len(),
            start <= k,
            line_end(t, start as int) == line_end(t, k as int),
        decreases n - k,
    {
        if buf[pos + k] == 13 && buf[pos + k + 1] == 10 {
            return Some(k);
        }
        k = k + 1;
    }
    None
}

/// The index of the first CR LF at or after `start`.
pub fn find_ctrl_index(buf: &[u8], start: usize) -> (r: Option<usize>)
    ensures
        r matches Some(e) ==> line_end(buf@, start as int) == Some(e as nat),
        r is None ==> line_end(buf@, start as int) is None,
{
    assert(buf@.skip(0) =~= buf@);
    line_end_from(buf, 0, start)
}

/// Whether `buf` read from `pos` on begins with `p`.
fn starts_with_at(buf: &[u8], pos: usize, p: &[u8]) -> (r: bool)
    requires
        pos <= buf@.len(),
    ensures
        r == starts_with(buf@.skip(pos as int), p@),
{
    if p.len() > buf.len() - pos {
        return false;
    }
    let blen = buf.len();
    let mut i: usize = 0;
    while i < p.len()
        invariant
            blen == buf@.len(),
            pos <= buf@.len(),
            p@.len() <= buf@.len() - pos,
            i <= p@.len(),
            forall|j: int| 0 <= j < i ==> buf@[pos + j] == p@[j],
        decreases p@.len() - i,
    {
        if buf[pos + i] != p[i] {
            assert(buf@.skip(pos as int).take(p@.len() as int)[i as int] != p@[i as int]);
            return false;
        }
        i = i + 1;
    }
    assert(buf@.skip(pos as int).take(p@.len() as int) =~= p@);
    true
}

/// Where the line of a frame tagged by `p` ends, in `buf` read from `pos` on.
pub(crate) fn simple_end_at(buf: &[u8], pos: usize, p: &[u8]) -> (r: Result<usize, RespError>)
    requires
        pos <= buf@.len(),
    ensures
        r matches Ok(e) ==> simple_end(buf@.skip(pos as int), p@) == Ok::<nat, RespError>(e as nat),
        r matches Err(x) ==> simple_end(buf@.skip(pos as int), p@) == Err::<nat, RespError>(x),
{
    if buf.len() - pos < 3 {
        return Err(RespError::NotComplete);
    }
    if !starts_with_at(buf, pos, p) {
        return Err(RespError::InvalidFrame);
    }
    match line_end_from(buf, pos, 1) {
        Some(e) => Ok(e),
        None => Err(RespError::NotComplete),
    }
}

/// Checks that `buf` begins with the frame tag `prefix` and returns the index
/// of the CR that ends its first line.
pub fn extract_simple_data_end_index(buf: &[u8], prefix: &str) -> (r: Result<usize, RespError>)
    ensures
        r matches Ok(e) ==> simple_end(buf@, prefix.spec_bytes()) == Ok::<nat, RespError>(e as nat),
        r matches Err(x) ==> simple_end(buf@, prefix.spec_bytes()) == Err::<nat, RespError>(x),
{
    assert(buf@.skip(0) =~= buf@);
    simple_end_at(buf, 0, prefix.as_bytes())
}

/// A length header `<prefix><count>`: where its line ends and the count.
pub open spec fn length_header(s: Seq<u8>, p: Seq<u8>) -> Result<(nat, nat), RespError> {
    match simple_end(s, p) {
        Ok(e) => if p.len() > e {
            Err(RespError::InvalidFrame)
        } else {
            match parse_unsigned(s.subrange(p.len() as int, e as int)) {
                Some(n) => Ok((e, n)),
                None => Err(RespError::ParseIntError),
            }
        },
        Err(x) => Err(x),
    }
}

/// Reads a length header tagged `prefix` at the front of `buf`: the index of
/// the CR that ends it, and the count it holds.
pub fn parse_length(buf: &[u8], prefix: &str) -> (r: Result<(usize, usize), RespError>)
    ensures
        r matches Ok((e, n)) ==> length_header(buf@, prefix.spec_bytes()) == Ok::<
            (nat, nat),
            RespError,
        >((e as nat, n as nat)),
        r matches Err(x) ==> length_header(buf@, prefix.spec_bytes()) == Err::<
            (nat, nat),
            RespError,
        >(x),
{
    let end = extract_simple_data_end_index(buf, prefix)?;
    let p = prefix.as_bytes();
    if p.len() > end {
        return Err(RespError::InvalidFrame);
    }
    proof {
        lemma_line_end(buf@, 1);
    }
    let mut text: Vec<u8> = Vec::new();
    let mut i: usize = p.len();
    while i < end
        invariant
            p@.len() <= i <= end,
            end + 2 <= buf@.len(),
            text@ == buf@.subrange(p@.len() as int, i as int),
        decreases end - i,
    {
        text.push(buf[i]);
        assert(text@ =~= buf@.subrange(p@.len() as int, i as int + 1));
        i = i + 1;
    }
    match parse_usize(text.as_slice()) {
        Some(n) => Ok((end, n)),
        None => Err(RespError::ParseIntError),
    }
}

/// Tests `buf` read from `pos` on for the sentinel literal `lit`.
pub(crate) fn sentinel_at(buf: &[u8], pos: usize, lit: &[u8]) -> (r: Result<(), RespError>)
    requires
        pos <= buf@.len(),
    ensures
        r == sentinel(buf@.skip(pos as int), lit@),
{
    let ghost t = buf@.skip(pos as int);
    let blen = buf.len();
    let avail = blen - pos;
    let m = if avail < lit.len() { avail } else { lit.len() };
    let mut i: usize = 0;
    while i < m
        invariant
            blen == buf@.len(),
            pos <= buf@.len(),
            avail == buf@.len() - pos,
            t == buf@.skip(pos as int),
            m <= avail,
            m <= lit@.len(),
            m == avail || m == lit@.len(),
            i <= m,
            forall|j: int| 0 <= j < i ==> t[j] == lit@[j],
        decreases m - i,
    {
        if buf[pos + i] != lit[i] {
            proof {
                lemma_sentinel_differs(t, lit@, i as int);
            }
            return Err(RespError::InvalidFrame);
        }
        i = i + 1;
    }
    if avail < lit.len() {
        assert(lit@.take(t.len() as int) =~= t);
        Err(RespError::NotComplete)
    } else {
        assert(t.take(lit@.len() as int) =~= lit@);
        Ok(())
    }
}

/// Checks that `buf` read from `pos` on begins with the literal `lit`.
pub(crate) fn fixed_at(buf: &[u8], pos: usize, lit: &[u8]) -> (r: Result<(), RespError>)
    requires
        pos <= buf@.len(),
    ensures
        r == fixed(buf@.skip(pos as int), lit@),
{
    if buf.len() - pos < lit.len() {
        return Err(RespError::NotComplete);
    }
    if !starts_with_at(buf, pos, lit) {
        return Err(RespError::InvalidFrame);
    }
    Ok(())
}

} // verus!
