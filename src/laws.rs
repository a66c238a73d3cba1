//! What holds of the codec as a whole: encoding then decoding gives the
//! frame back, the predicted length is exact, a partial frame reads as
//! incomplete, and non-negative numbers carry their sign.
use crate::buffer::{
    crlf, crlf_at, lemma_sentinel_differs, line_end, simple_end, text_from,
};
use crate::decimal::{
    decimal_char, decimal_display, decimal_is_negative, decimal_parses, decimal_text,
};
use crate::error::RespError;
use crate::model::{
    bulk_null_literal, false_literal, header, line_text, null_array_literal, null_literal, parse,
    parse_items, predict, predict_items, ser, ser_items, tagged_line, true_literal,
    big_line, FrameV,
};
use crate::number::{
    all_digits, is_digit, lemma_nat_text, lemma_signed_text, lemma_unsigned_text, nat_text,
    signed_text,
};
use vstd::prelude::*;
use vstd::utf8::{
    encode_utf8, encode_utf8_decode_utf8, encode_utf8_valid_utf8, is_ascii_chars,
    is_ascii_chars_encode_utf8,
};

verus! {

/// No CR LF pair anywhere in `b`.
pub open spec fn no_crlf(b: Seq<u8>) -> bool {
    forall|i: int| 0 <= i && i + 1 < b.len() ==> !(b[i] == 13 && #[trigger] b[i + 1] == 10)
}

/// A frame that its own encoding stands for exactly: text lines hold no
/// terminator, integers fit an `i64`, and each big number's line reads back,
/// through `bigdecimal`, as that same sign and text.
pub open spec fn round_trips(f: FrameV) -> bool
    decreases f,
{
    match f {
        FrameV::SimpleString(t) => no_crlf(encode_utf8(t)),
        FrameV::SimpleError(t) => no_crlf(encode_utf8(t)),
        FrameV::Integer(v) => i64::MIN <= v <= i64::MAX,
        FrameV::Double(t) => no_crlf(t),
        FrameV::BigNumber(neg, t) => no_crlf(encode_utf8(t)) && reads_back(neg, t),
        FrameV::Array(fs) => forall|i: int| 0 <= i < fs.len() ==> round_trips(#[trigger] fs[i]),
        _ => true,
    }
}

/// A big number's line, read back as a decimal, gives its own sign and
/// canonical text.
pub open spec fn reads_back(neg: bool, t: Seq<char>) -> bool {
    let x = text_from(big_line(neg, t));
    decimal_parses(x) && decimal_is_negative(x) == neg && decimal_display(x) == t
}

/// A frame whose text lines hold no CR LF, so that each line ends at its
/// own terminator.
pub open spec fn clean_lines(f: FrameV) -> bool
    decreases f,
{
    match f {
        FrameV::SimpleString(t) => no_crlf(encode_utf8(t)),
        FrameV::SimpleError(t) => no_crlf(encode_utf8(t)),
        FrameV::Double(t) => no_crlf(t),
        FrameV::BigNumber(_, t) => no_crlf(encode_utf8(t)),
        FrameV::Array(fs) => forall|i: int| 0 <= i < fs.len() ==> clean_lines(#[trigger] fs[i]),
        _ => true,
    }
}

proof fn lemma_round_trips_clean(f: FrameV)
    requires
        round_trips(f),
    ensures
        clean_lines(f),
    decreases f,
{
    if let FrameV::Array(fs) = f {
        assert forall|i: int| 0 <= i < fs.len() implies clean_lines(#[trigger] fs[i]) by {
            lemma_round_trips_clean(fs[i]);
        }
    }
}

proof fn lemma_line_from(s: Seq<u8>, start: int, e: int)
    requires
        0 <= start <= e,
        crlf_at(s, e),
        forall|i: int| start <= i < e ==> !crlf_at(s, i),
    ensures
        line_end(s, start) == Some(e as nat),
    decreases e - start,
{
    if start < e {
        lemma_line_from(s, start + 1, e);
    }
}

/// A tagged line followed by anything ends where its own terminator stands.
proof fn lemma_tagged_line(tag: u8, text: Seq<u8>, rest: Seq<u8>)
    requires
        no_crlf(text),
    ensures
        simple_end(tagged_line(tag, text) + rest, seq![tag]) == Ok::<nat, RespError>(
            1 + text.len(),
        ),
        line_text(tagged_line(tag, text) + rest, 1 + text.len()) == text,
        (tagged_line(tag, text) + rest).len() == text.len() + 3 + rest.len(),
{
    let s = tagged_line(tag, text) + rest;
    let e: int = 1 + text.len() as int;
    assert forall|i: int| 0 <= i < text.len() implies s[i + 1] == text[i] by {}
    assert(s[e] == 13 && s[e + 1] == 10);
    assert forall|i: int| 1 <= i < e implies !crlf_at(s, i) by {
        if i + 1 < e {
            assert(s[i] == text[i - 1] && s[i + 1] == text[i]);
        } else {
            assert(s[i + 1] == 13);
        }
    }
    lemma_line_from(s, 1, e);
    assert(s.take(1) =~= seq![tag]);
    assert(line_text(s, e as nat) =~= text);
}

proof fn lemma_digits_no_crlf(d: Seq<u8>)
    requires
        all_digits(d),
    ensures
        no_crlf(d),
{
    assert forall|i: int| 0 <= i && i + 1 < d.len() implies !(d[i] == 13 && #[trigger] d[i + 1]
        == 10) by {
        assert(is_digit(d[i]));
    }
}

proof fn lemma_signed_no_crlf(v: int)
    ensures
        no_crlf(signed_text(v)),
        signed_text(v).len() >= 2,
{
    let m: nat = if v < 0 { (-v) as nat } else { v as nat };
    lemma_nat_text(m);
    let t = signed_text(v);
    assert forall|i: int| 0 <= i && i + 1 < t.len() implies !(t[i] == 13 && #[trigger] t[i + 1]
        == 10) by {
        assert(t[i + 1] == nat_text(m)[i]);
        assert(is_digit(nat_text(m)[i]));
    }
}

proof fn lemma_ser_len(f: FrameV)
    ensures
        ser(f).len() >= 3,
{
    match f {
        FrameV::Array(fs) => {
            assert(ser(f).len() >= tagged_line(42, nat_text(fs.len())).len());
        },
        FrameV::BulkString(b) => {
            assert(ser(f).len() >= tagged_line(36, nat_text(b.len())).len());
        },
        _ => {},
    }
}

proof fn lemma_ser_items_len(fs: Seq<FrameV>, n: nat)
    requires
        n <= fs.len(),
    ensures
        ser_items(fs, n).len() >= n,
    decreases n,
{
    if n > 0 {
        lemma_ser_items_len(fs, (n - 1) as nat);
        lemma_ser_len(fs[n - 1]);
    }
}

/// The encoding of the first `n` frames starts with that of the first one.
proof fn lemma_ser_items_front(fs: Seq<FrameV>, n: nat)
    requires
        1 <= n <= fs.len(),
    ensures
        ser_items(fs, n) == ser(fs[0]) + ser_items(fs.skip(1), (n - 1) as nat),
    decreases n,
{
    if n == 1 {
        assert(ser_items(fs, 0) =~= Seq::<u8>::empty());
        assert(ser_items(fs.skip(1), 0) =~= Seq::<u8>::empty());
        assert(ser_items(fs, 1) =~= ser(fs[0]) + ser_items(fs.skip(1), 0));
    } else {
        lemma_ser_items_front(fs, (n - 1) as nat);
        assert(fs.skip(1)[n - 2] == fs[n - 1]);
        assert(ser_items(fs, n) =~= ser(fs[0]) + ser_items(fs.skip(1), (n - 1) as nat));
    }
}

/// The round trip of a frame that is not an array.
#[verifier::rlimit(30)]
proof fn lemma_round_trip_scalar(f: FrameV, rest: Seq<u8>)
    requires
        round_trips(f),
        ser(f).len() <= usize::MAX,
        !(f is Array),
    ensures
        parse(ser(f) + rest) == Ok::<(FrameV, nat), RespError>((f, ser(f).len())),
{
    let s = ser(f) + rest;
    match f {
        FrameV::SimpleString(t) => {
            lemma_tagged_line(43, encode_utf8(t), rest);
            encode_utf8_valid_utf8(t);
            encode_utf8_decode_utf8(t);
        },
        FrameV::SimpleError(t) => {
            lemma_tagged_line(45, encode_utf8(t), rest);
            encode_utf8_valid_utf8(t);
            encode_utf8_decode_utf8(t);
        },
        FrameV::Integer(v) => {
            lemma_signed_no_crlf(v);
            lemma_tagged_line(58, signed_text(v), rest);
            lemma_signed_text(v);
        },
        FrameV::Double(t) => {
            lemma_tagged_line(44, t, rest);
        },
        FrameV::Null => {
            assert(s.take(3) =~= null_literal());
        },
        FrameV::Boolean(b) => {
            if b {
                assert(s.take(4) =~= true_literal());
            } else {
                assert(s.take(4)[1] != true_literal()[1]);
                assert(s.take(4) =~= false_literal());
            }
        },
        FrameV::BulkNull => {
            assert(s.take(5) =~= bulk_null_literal());
        },
        FrameV::NullArray => {
            assert(s.take(5) =~= null_array_literal());
        },
        FrameV::BigNumber(neg, t) => {
            lemma_sign_no_crlf(neg, encode_utf8(t));
            lemma_tagged_line(40, big_line(neg, t), rest);
        },
        FrameV::BulkString(b) => {
            let d = nat_text(b.len());
            lemma_nat_text(b.len());
            lemma_digits_no_crlf(d);
            lemma_unsigned_text(b.len());
            assert(s =~= tagged_line(36, d) + (b + crlf() + rest));
            lemma_tagged_line(36, d, b + crlf() + rest);
            assert(s[1] == d[0]);
            lemma_sentinel_differs(s, bulk_null_literal(), 1);
            assert(header(s, 36) == Ok::<(nat, nat), RespError>((1 + d.len(), b.len())));
            assert(s.subrange(1 + d.len() + 2int, 1 + d.len() + 2int + b.len()) =~= b);
        },
        FrameV::Array(_) => {},
    }
}

/// Decoding a frame's encoding, with anything after it, gives the frame and
/// its length back.
#[verifier::rlimit(30)]
proof fn lemma_round_trip(f: FrameV, rest: Seq<u8>)
    requires
        round_trips(f),
        ser(f).len() <= usize::MAX,
    ensures
        parse(ser(f) + rest) == Ok::<(FrameV, nat), RespError>((f, ser(f).len())),
    decreases f, 1nat,
{
    let s = ser(f) + rest;
    match f {
        FrameV::Array(fs) => {
            let d = nat_text(fs.len());
            let items = ser_items(fs, fs.len());
            lemma_nat_text(fs.len());
            lemma_digits_no_crlf(d);
            lemma_ser_items_len(fs, fs.len());
            lemma_unsigned_text(fs.len());
            assert(s =~= tagged_line(42, d) + (items + rest));
            lemma_tagged_line(42, d, items + rest);
            let e = 1 + d.len();
            assert(header(s, 42) == Ok::<(nat, nat), RespError>((e, fs.len())));
            assert(s.skip(e + 2int) =~= items + rest);
            assert(s[1] == d[0]);
            lemma_sentinel_differs(s, null_array_literal(), 1);
            lemma_round_trips_clean(f);
            lemma_predict_full_items(fs, rest);
            lemma_round_trip_items(fs, rest);
        },
        _ => {
            lemma_round_trip_scalar(f, rest);
        },
    }
}

/// The items of an array decode one after another.
proof fn lemma_round_trip_items(fs: Seq<FrameV>, rest: Seq<u8>)
    requires
        forall|i: int| 0 <= i < fs.len() ==> round_trips(#[trigger] fs[i]),
        ser_items(fs, fs.len()).len() <= usize::MAX,
    ensures
        parse_items(ser_items(fs, fs.len()) + rest, fs.len()) == Ok::<
            (Seq<FrameV>, nat),
            RespError,
        >((fs, ser_items(fs, fs.len()).len())),
    decreases fs, 0nat,
{
    if fs.len() == 0 {
        assert(Seq::<FrameV>::empty() =~= fs);
    } else {
        let n = fs.len();
        let tail = fs.skip(1);
        lemma_ser_items_front(fs, n);
        let after = ser_items(tail, tail.len()) + rest;
        let t = ser_items(fs, n) + rest;
        assert(t =~= ser(fs[0]) + after);
        if n > 1 {
            lemma_ser_items_front(tail, tail.len());
            lemma_ser_len(tail[0]);
        } else {
            assert(ser_items(tail, 0) =~= Seq::<u8>::empty());
            assert(after =~= rest);
        }
        lemma_round_trip(fs[0], after);
        let l = ser(fs[0]).len();
        assert(t.skip(l as int) =~= after);
        assert(decreases_to!(fs => fs.subrange(1, fs.len() as int)));
        assert(tail =~= fs.subrange(1, fs.len() as int));
        assert forall|i: int| 0 <= i < tail.len() implies round_trips(#[trigger] tail[i]) by {
            assert(tail[i] == fs[i + 1]);
        }
        if n > 1 {
            assert(tail[tail.len() - 1] == fs[n - 1]);
        }
        lemma_round_trip_items(tail, rest);
        assert(seq![fs[0]] + tail =~= fs);
    }
}

/// The predicted length of a frame followed by anything is the length of
/// its encoding.
#[verifier::rlimit(30)]
proof fn lemma_predict_full(f: FrameV, rest: Seq<u8>)
    requires
        clean_lines(f),
        ser(f).len() <= usize::MAX,
    ensures
        predict(ser(f) + rest) == Ok::<nat, RespError>(ser(f).len()),
    decreases f, 1nat,
{
    let s = ser(f) + rest;
    match f {
        FrameV::Array(fs) => {
            let d = nat_text(fs.len());
            let items = ser_items(fs, fs.len());
            lemma_nat_text(fs.len());
            lemma_digits_no_crlf(d);
            lemma_ser_items_len(fs, fs.len());
            lemma_unsigned_text(fs.len());
            assert(s =~= tagged_line(42, d) + (items + rest));
            lemma_tagged_line(42, d, items + rest);
            let e = 1 + d.len();
            assert(header(s, 42) == Ok::<(nat, nat), RespError>((e, fs.len())));
            assert(s.skip(e + 2int) =~= items + rest);
            assert(s[1] == d[0]);
            lemma_sentinel_differs(s, null_array_literal(), 1);
            lemma_predict_full_items(fs, rest);
        },
        FrameV::BulkString(b) => {
            lemma_predict_bulk(b, rest);
        },
        FrameV::BulkNull => {
            assert(s.take(5) =~= bulk_null_literal());
        },
        FrameV::NullArray => {
            assert(s.take(5) =~= null_array_literal());
        },
        _ => {
            lemma_predict_line(f, rest);
        },
    }
}

/// The predicted length of a bulk string followed by anything.
proof fn lemma_predict_bulk(b: Seq<u8>, rest: Seq<u8>)
    requires
        ser(FrameV::BulkString(b)).len() <= usize::MAX,
    ensures
        predict(ser(FrameV::BulkString(b)) + rest) == Ok::<nat, RespError>(
            ser(FrameV::BulkString(b)).len(),
        ),
{
    let s = ser(FrameV::BulkString(b)) + rest;
    let d = nat_text(b.len());
    lemma_nat_text(b.len());
    lemma_digits_no_crlf(d);
    lemma_unsigned_text(b.len());
    assert(s =~= tagged_line(36, d) + (b + crlf() + rest));
    lemma_tagged_line(36, d, b + crlf() + rest);
    assert(s[1] == d[0]);
    lemma_sentinel_differs(s, bulk_null_literal(), 1);
    assert(header(s, 36) == Ok::<(nat, nat), RespError>((1 + d.len(), b.len())));
}

/// The predicted length of a single-line frame followed by anything.
#[verifier::rlimit(30)]
proof fn lemma_predict_line(f: FrameV, rest: Seq<u8>)
    requires
        clean_lines(f),
        !(f is Array || f is BulkString || f is BulkNull || f is NullArray),
    ensures
        predict(ser(f) + rest) == Ok::<nat, RespError>(ser(f).len()),
{
    match f {
        FrameV::SimpleString(t) => {
            lemma_tagged_line(43, encode_utf8(t), rest);
        },
        FrameV::SimpleError(t) => {
            lemma_tagged_line(45, encode_utf8(t), rest);
        },
        FrameV::Integer(v) => {
            lemma_signed_no_crlf(v);
            lemma_tagged_line(58, signed_text(v), rest);
        },
        FrameV::Double(t) => {
            lemma_tagged_line(44, t, rest);
        },
        FrameV::BigNumber(neg, t) => {
            let text = (if neg {
                Seq::empty()
            } else {
                seq![43u8]
            }) + encode_utf8(t);
            lemma_sign_no_crlf(neg, encode_utf8(t));
            lemma_tagged_line(40, text, rest);
        },
        FrameV::Null => {
            assert(ser(f) =~= tagged_line(95, Seq::empty()));
            lemma_tagged_line(95, Seq::empty(), rest);
        },
        FrameV::Boolean(b) => {
            let c: u8 = if b { 116 } else { 102 };
            assert(ser(f) =~= tagged_line(35, seq![c]));
            lemma_tagged_line(35, seq![c], rest);
        },
        _ => {},
    }
}

proof fn lemma_sign_no_crlf(neg: bool, t: Seq<u8>)
    requires
        no_crlf(t),
    ensures
        no_crlf((if neg {
            Seq::empty()
        } else {
            seq![43u8]
        }) + t),
{
    let u = (if neg {
        Seq::empty()
    } else {
        seq![43u8]
    }) + t;
    assert forall|i: int| 0 <= i && i + 1 < u.len() implies !(u[i] == 13 && #[trigger] u[i + 1]
        == 10) by {
        if !neg {
            if i > 0 {
                let j = i - 1;
                assert(u[i] == t[j] && u[i + 1] == t[j + 1]);
                assert(!(t[j] == 13 && t[j + 1] == 10));
            } else {
                assert(u[0] == 43);
            }
        } else {
            assert(u =~= t);
        }
    }
}

proof fn lemma_predict_full_items(fs: Seq<FrameV>, rest: Seq<u8>)
    requires
        forall|i: int| 0 <= i < fs.len() ==> clean_lines(#[trigger] fs[i]),
        ser_items(fs, fs.len()).len() <= usize::MAX,
    ensures
        predict_items(ser_items(fs, fs.len()) + rest, fs.len()) == Ok::<nat, RespError>(
            ser_items(fs, fs.len()).len(),
        ),
    decreases fs, 0nat,
{
    if fs.len() > 0 {
        let n = fs.len();
        let tail = fs.skip(1);
        lemma_ser_items_front(fs, n);
        let after = ser_items(tail, tail.len()) + rest;
        let t = ser_items(fs, n) + rest;
        assert(t =~= ser(fs[0]) + after);
        if n > 1 {
            lemma_ser_items_front(tail, tail.len());
            lemma_ser_len(tail[0]);
        } else {
            assert(ser_items(tail, 0) =~= Seq::<u8>::empty());
            assert(after =~= rest);
        }
        lemma_predict_full(fs[0], after);
        let l = ser(fs[0]).len();
        assert(t.skip(l as int) =~= after);
        assert(decreases_to!(fs => fs.subrange(1, fs.len() as int)));
        assert(tail =~= fs.subrange(1, fs.len() as int));
        assert forall|i: int| 0 <= i < tail.len() implies clean_lines(#[trigger] tail[i]) by {
            assert(tail[i] == fs[i + 1]);
        }
        if n > 1 {
            assert(tail[tail.len() - 1] == fs[n - 1]);
        }
        lemma_predict_full_items(tail, rest);
    }
}

proof fn lemma_line_none_from(s: Seq<u8>, start: int)
    requires
        0 <= start,
        forall|i: int| start <= i ==> !crlf_at(s, i),
    ensures
        line_end(s, start) is None,
    decreases s.len() - start,
{
    if start + 1 < s.len() {
        lemma_line_none_from(s, start + 1);
    }
}

/// A strict prefix of a tagged line, with at least its tag, has no
/// terminator yet.
proof fn lemma_line_cut(tag: u8, text: Seq<u8>, rest: Seq<u8>, k: int)
    requires
        no_crlf(text),
        3 <= k < text.len() + 3,
    ensures
        simple_end((tagged_line(tag, text) + rest).take(k), seq![tag]) == Err::<nat, RespError>(
            RespError::NotComplete,
        ),
{
    let p = (tagged_line(tag, text) + rest).take(k);
    assert forall|i: int| 0 <= i < text.len() implies p.len() > i + 1 ==> p[i + 1] == text[i] by {}
    assert forall|i: int| 1 <= i implies !crlf_at(p, i) by {
        if i + 1 < p.len() {
            if i + 1 <= text.len() {
                assert(p[i] == text[i - 1] && p[i + 1] == text[i]);
            } else {
                assert(p[i + 1] == 13);
            }
        }
    }
    lemma_line_none_from(p, 1);
    assert(p.take(1) =~= seq![tag]);
}

/// A strict prefix of a frame's encoding decodes as incomplete, and
/// predicts either incomplete or the whole frame's length.
proof fn lemma_prefix(g: FrameV, k: nat)
    requires
        clean_lines(g),
        ser(g).len() <= usize::MAX,
        k < ser(g).len(),
    ensures
        parse(ser(g).take(k as int)) == Err::<(FrameV, nat), RespError>(RespError::NotComplete),
        predict(ser(g).take(k as int)) == Err::<nat, RespError>(RespError::NotComplete)
            || predict(ser(g).take(k as int)) == Ok::<nat, RespError>(ser(g).len()),
    decreases g, 1nat,
{
    let s = ser(g);
    let p = s.take(k as int);
    if k == 0 {
        assert(p.len() == 0);
    } else {
        assert(p[0] == s[0]);
        assert(p.len() == k);
        match g {
            FrameV::Array(fs) => {
                lemma_prefix_array(fs, k);
            },
            FrameV::BulkString(b) => {
                lemma_prefix_bulk(b, k);
            },
            _ => {
                lemma_prefix_scalar(g, k);
            },
        }
    }
}

#[verifier::rlimit(30)]
proof fn lemma_prefix_scalar(g: FrameV, k: nat)
    requires
        clean_lines(g),
        !(g is Array),
        !(g is BulkString),
        1 <= k < ser(g).len(),
    ensures
        parse(ser(g).take(k as int)) == Err::<(FrameV, nat), RespError>(RespError::NotComplete),
        predict(ser(g).take(k as int)) == Err::<nat, RespError>(RespError::NotComplete),
{
    let s = ser(g);
    let p = s.take(k as int);
    assert(p[0] == s[0]);
    match g {
        FrameV::SimpleString(t) => {
            if k >= 3 {
                lemma_line_cut(43, encode_utf8(t), Seq::empty(), k as int);
                assert(s + Seq::<u8>::empty() =~= s);
            }
        },
        FrameV::SimpleError(t) => {
            if k >= 3 {
                lemma_line_cut(45, encode_utf8(t), Seq::empty(), k as int);
                assert(s + Seq::<u8>::empty() =~= s);
            }
        },
        FrameV::Integer(v) => {
            lemma_signed_no_crlf(v);
            if k >= 3 {
                lemma_line_cut(58, signed_text(v), Seq::empty(), k as int);
                assert(s + Seq::<u8>::empty() =~= s);
            }
        },
        FrameV::Double(t) => {
            if k >= 3 {
                lemma_line_cut(44, t, Seq::empty(), k as int);
                assert(s + Seq::<u8>::empty() =~= s);
            }
        },
        FrameV::BigNumber(neg, t) => {
            let text = (if neg {
                Seq::empty()
            } else {
                seq![43u8]
            }) + encode_utf8(t);
            lemma_sign_no_crlf(neg, encode_utf8(t));
            if k >= 3 {
                lemma_line_cut(40, text, Seq::empty(), k as int);
                assert(s + Seq::<u8>::empty() =~= s);
            }
        },
        FrameV::Null => {},
        FrameV::Boolean(b) => {
            let c: u8 = if b { 116 } else { 102 };
            assert(s =~= tagged_line(35, seq![c]) + Seq::empty());
            if k >= 3 {
                lemma_line_cut(35, seq![c], Seq::empty(), k as int);
            }
        },
        FrameV::BulkNull => {
            assert(bulk_null_literal().take(k as int) =~= p);
        },
        FrameV::NullArray => {
            assert(null_array_literal().take(k as int) =~= p);
        },
        _ => {},
    }
}

#[verifier::rlimit(30)]
proof fn lemma_prefix_bulk(b: Seq<u8>, k: nat)
    requires
        ser(FrameV::BulkString(b)).len() <= usize::MAX,
        1 <= k < ser(FrameV::BulkString(b)).len(),
    ensures
        parse(ser(FrameV::BulkString(b)).take(k as int)) == Err::<(FrameV, nat), RespError>(
            RespError::NotComplete,
        ),
        predict(ser(FrameV::BulkString(b)).take(k as int)) == Err::<nat, RespError>(
            RespError::NotComplete,
        ) || predict(ser(FrameV::BulkString(b)).take(k as int)) == Ok::<nat, RespError>(
            ser(FrameV::BulkString(b)).len(),
        ),
{
    let s = ser(FrameV::BulkString(b));
    let p = s.take(k as int);
    let d = nat_text(b.len());
    lemma_nat_text(b.len());
    lemma_digits_no_crlf(d);
    lemma_unsigned_text(b.len());
    let e = 1 + d.len();
    assert(p[0] == 36);
    if k == 1 {
        assert(bulk_null_literal().take(1) =~= p);
    } else {
        assert(p[1] == d[0]);
        lemma_sentinel_differs(p, bulk_null_literal(), 1);
        if k < 3 {
        } else if k < e + 2 {
            assert(s =~= tagged_line(36, d) + (b + crlf()));
            lemma_line_cut(36, d, b + crlf(), k as int);
        } else {
            assert(p =~= tagged_line(36, d) + p.skip(e + 2int));
            lemma_tagged_line(36, d, p.skip(e + 2int));
            assert(header(p, 36) == Ok::<(nat, nat), RespError>((e, b.len())));
        }
    }
}

#[verifier::rlimit(30)]
proof fn lemma_prefix_array(fs: Seq<FrameV>, k: nat)
    requires
        clean_lines(FrameV::Array(fs)),
        ser(FrameV::Array(fs)).len() <= usize::MAX,
        1 <= k < ser(FrameV::Array(fs)).len(),
    ensures
        parse(ser(FrameV::Array(fs)).take(k as int)) == Err::<(FrameV, nat), RespError>(
            RespError::NotComplete,
        ),
        predict(ser(FrameV::Array(fs)).take(k as int)) == Err::<nat, RespError>(
            RespError::NotComplete,
        ) || predict(ser(FrameV::Array(fs)).take(k as int)) == Ok::<nat, RespError>(
            ser(FrameV::Array(fs)).len(),
        ),
    decreases fs, 3nat,
{
    let s = ser(FrameV::Array(fs));
    let p = s.take(k as int);
    let d = nat_text(fs.len());
    let items = ser_items(fs, fs.len());
    lemma_nat_text(fs.len());
    lemma_digits_no_crlf(d);
    lemma_ser_items_len(fs, fs.len());
    lemma_unsigned_text(fs.len());
    let e = 1 + d.len();
    assert(p[0] == 42);
    if k == 1 {
        assert(null_array_literal().take(1) =~= p);
    } else {
        assert(p[1] == d[0]);
        lemma_sentinel_differs(p, null_array_literal(), 1);
        if k < 3 {
        } else if k < e + 2 {
            assert(s =~= tagged_line(42, d) + items);
            lemma_line_cut(42, d, items, k as int);
        } else {
            assert(p =~= tagged_line(42, d) + p.skip(e + 2int));
            lemma_tagged_line(42, d, p.skip(e + 2int));
            assert(header(p, 42) == Ok::<(nat, nat), RespError>((e, fs.len())));
            assert(p.skip(e + 2int) =~= items.take(k - e - 2));
            lemma_prefix_items(fs, (k - e - 2) as nat);
        }
    }
}

#[verifier::rlimit(30)]
proof fn lemma_prefix_items(fs: Seq<FrameV>, j: nat)
    requires
        forall|i: int| 0 <= i < fs.len() ==> clean_lines(#[trigger] fs[i]),
        ser_items(fs, fs.len()).len() <= usize::MAX,
        j < ser_items(fs, fs.len()).len(),
    ensures
        predict_items(ser_items(fs, fs.len()).take(j as int), fs.len()) == Err::<nat, RespError>(
            RespError::NotComplete,
        ) || predict_items(ser_items(fs, fs.len()).take(j as int), fs.len()) == Ok::<
            nat,
            RespError,
        >(ser_items(fs, fs.len()).len()),
    decreases fs, 2nat,
{
    let n = fs.len();
    let items = ser_items(fs, n);
    let t = items.take(j as int);
    if n == 0 {
        assert(items =~= Seq::<u8>::empty());
    } else {
        let tail = fs.skip(1);
        lemma_ser_items_front(fs, n);
        let after = ser_items(tail, tail.len());
        let l = ser(fs[0]).len();
        if n == 1 {
            assert(ser_items(tail, 0) =~= Seq::<u8>::empty());
        }
        if j < l {
            assert(t =~= ser(fs[0]).take(j as int));
            lemma_prefix(fs[0], j);
        } else {
            let rest = after.take(j - l);
            assert(t =~= ser(fs[0]) + rest);
            {
                lemma_predict_full(fs[0], rest);
                assert(t.skip(l as int) =~= rest);
                assert(decreases_to!(fs => fs.subrange(1, fs.len() as int)));
                assert(tail =~= fs.subrange(1, fs.len() as int));
                assert forall|i: int| 0 <= i < tail.len() implies clean_lines(#[trigger] tail[i]) by {
                    assert(tail[i] == fs[i + 1]);
                }
                lemma_prefix_items(tail, (j - l) as nat);
            }
        }
    }
}

/// Encoding a frame and decoding the bytes gives the frame back and takes
/// every byte, and the predicted length is that same count. This holds of
/// every frame whose text lines hold no CR LF, whose integers fit an `i64`,
/// and whose big numbers read back through `bigdecimal` as themselves.
pub proof fn law_round_trip(f: FrameV)
    requires
        round_trips(f),
        ser(f).len() <= usize::MAX,
    ensures
        parse(ser(f)) == Ok::<(FrameV, nat), RespError>((f, ser(f).len())),
        predict(ser(f)) == Ok::<nat, RespError>(ser(f).len()),
{
    lemma_round_trip(f, Seq::empty());
    lemma_round_trips_clean(f);
    lemma_predict_full(f, Seq::empty());
    assert(ser(f) + Seq::<u8>::empty() =~= ser(f));
}

/// Every strict prefix of a frame's encoding decodes as incomplete; by
/// `decode_any`'s contract the buffer then keeps exactly those bytes. This
/// holds of every frame whose text lines hold no CR LF.
pub proof fn law_prefix_incomplete(f: FrameV, k: nat)
    requires
        clean_lines(f),
        ser(f).len() <= usize::MAX,
        k < ser(f).len(),
    ensures
        parse(ser(f).take(k as int)) == Err::<(FrameV, nat), RespError>(RespError::NotComplete),
{
    lemma_prefix(f, k);
}

/// Feeding a frame's encoding one byte at a time and decoding after each
/// byte reads as incomplete until the last byte, which yields the frame and
/// takes every byte.
pub proof fn law_incremental(f: FrameV)
    requires
        round_trips(f),
        ser(f).len() <= usize::MAX,
    ensures
        forall|k: nat| k < ser(f).len() ==> #[trigger] parse(ser(f).take(k as int)) == Err::<
            (FrameV, nat),
            RespError,
        >(RespError::NotComplete),
        parse(ser(f).take(ser(f).len() as int)) == Ok::<(FrameV, nat), RespError>(
            (f, ser(f).len()),
        ),
{
    lemma_round_trips_clean(f);
    assert forall|k: nat| k < ser(f).len() implies #[trigger] parse(ser(f).take(k as int))
        == Err::<(FrameV, nat), RespError>(RespError::NotComplete) by {
        lemma_prefix(f, k);
    }
    law_round_trip(f);
    assert(ser(f).take(ser(f).len() as int) =~= ser(f));
}

/// A big number's canonical text never breaks its line: every big number
/// that `BigNumber::new` makes (decoding makes them through it) has clean
/// lines.
pub proof fn law_decimal_text_clean(t: Seq<char>)
    requires
        decimal_text(t),
    ensures
        no_crlf(encode_utf8(t)),
        clean_lines(FrameV::BigNumber(false, t)),
        clean_lines(FrameV::BigNumber(true, t)),
{
    assert(is_ascii_chars(t));
    is_ascii_chars_encode_utf8(t);
    let b = encode_utf8(t);
    assert forall|i: int| 0 <= i && i + 1 < b.len() implies !(b[i] == 13 && #[trigger] b[i + 1]
        == 10) by {
        assert(decimal_char(t[i]));
        assert(b[i] == t[i] as u8);
    }
}

/// A non-negative integer, and a big number that is not below zero, are
/// written with a leading `+` after their tag.
pub proof fn law_non_negative_sign(f: FrameV)
    requires
        (f matches FrameV::Integer(v) && v >= 0) || (f matches FrameV::BigNumber(neg, _) && !neg),
    ensures
        ser(f)[1] == 43,
{
}

} // verus!
