//! Decimal numerals as they appear in headers and integer frames.
use vstd::prelude::*;

verus! {

/// An ASCII decimal digit.
pub open spec fn is_digit(b: u8) -> bool {
    48 <= b && b <= 57
}

pub open spec fn all_digits(s: Seq<u8>) -> bool {
    forall|i: int| 0 <= i < s.len() ==> is_digit(#[trigger] s[i])
}

/// The value of a run of decimal digits, most significant first.
pub open spec fn digits_value(s: Seq<u8>) -> nat
    decreases s.len(),
{
    if s.len() == 0 {
        0
    } else {
        digits_value(s.drop_last()) * 10 + (s.last() - 48) as nat
    }
}

/// The digits of a numeral after an optional leading `+`.
pub open spec fn after_plus(s: Seq<u8>) -> Seq<u8> {
    if s.len() > 0 && s[0] == 43 {
        s.skip(1)
    } else {
        s
    }
}

/// A non-empty run of digits whose value is at most `bound`.
pub open spec fn bounded_digits(d: Seq<u8>, bound: nat) -> bool {
    d.len() > 0 && all_digits(d) && digits_value(d) <= bound
}

/// An unsigned numeral that fits a `usize`: an optional `+`, then digits.
pub open spec fn parse_unsigned(s: Seq<u8>) -> Option<nat> {
    if bounded_digits(after_plus(s), usize::MAX as nat) {
        Some(digits_value(after_plus(s)))
    } else {
        None
    }
}

/// A signed numeral that fits an `i64`: an optional `+` or `-`, then digits.
pub open spec fn parse_signed(s: Seq<u8>) -> Option<int> {
    if s.len() > 0 && s[0] == 45 {
        if bounded_digits(s.skip(1), 0x8000_0000_0000_0000) {
            Some(-digits_value(s.skip(1)))
        } else {
            None
        }
    } else if bounded_digits(after_plus(s), i64::MAX as nat) {
        Some(digits_value(after_plus(s)) as int)
    } else {
        None
    }
}

/// The shortest decimal rendering of `n`.
pub open spec fn nat_text(n: nat) -> Seq<u8>
    decreases n,
{
    if n < 10 {
        seq![(n + 48) as u8]
    } else {
        nat_text(n / 10).push((n % 10 + 48) as u8)
    }
}

/// A signed rendering that always carries its sign: `+` for zero and above.
pub open spec fn signed_text(v: int) -> Seq<u8> {
    if v < 0 {
        seq![45u8] + nat_text((-v) as nat)
    } else {
        seq![43u8] + nat_text(v as nat)
    }
}

proof fn lemma_prefix_value_le(s: Seq<u8>, j: int)
    requires
        all_digits(s),
        0 <= j <= s.len(),
    ensures
        digits_value(s.take(j)) <= digits_value(s),
    decreases s.len(),
{
    if j < s.len() {
        lemma_prefix_value_le(s.drop_last(), j);
        assert(s.drop_last().take(j) =~= s.take(j));
    } else {
        assert(s.take(j) =~= s);
    }
}

pub proof fn lemma_nat_text(n: nat)
    ensures
        nat_text(n).len() > 0,
        all_digits(nat_text(n)),
        digits_value(nat_text(n)) == n,
        nat_text(n)[0] != 43 && nat_text(n)[0] != 45,
    decreases n,
{
    if n >= 10 {
        lemma_nat_text(n / 10);
        let t = nat_text(n);
        assert(t.drop_last() =~= nat_text(n / 10));
        assert(n == (n / 10) * 10 + n % 10);
        assert(t.last() == (n % 10 + 48) as u8);
        assert((t.last() - 48) as nat == n % 10);
        assert(digits_value(t) == digits_value(t.drop_last()) * 10 + (t.last() - 48) as nat);
    } else {
        assert(nat_text(n).drop_last() =~= Seq::<u8>::empty());
        assert(digits_value(nat_text(n)) == digits_value(nat_text(n).drop_last()) * 10 + (
        nat_text(n).last() - 48) as nat);
    }
}

pub proof fn lemma_signed_text(v: int)
    requires
        i64::MIN <= v <= i64::MAX,
    ensures
        parse_signed(signed_text(v)) == Some(v),
{
    if v < 0 {
        lemma_nat_text((-v) as nat);
        assert(signed_text(v).skip(1) =~= nat_text((-v) as nat));
    } else {
        lemma_nat_text(v as nat);
        assert(after_plus(signed_text(v)) =~= nat_text(v as nat));
    }
}

pub proof fn lemma_unsigned_text(n: nat)
    requires
        n <= usize::MAX,
    ensures
        parse_unsigned(nat_text(n)) == Some(n),
{
    lemma_nat_text(n);
}

/// Reads the digits `s[start..]`, each one a decimal digit, as long as their
/// value stays at most `bound`.
fn read_digits(s: &[u8], start: usize, bound: u64) -> (r: Option<u64>)
    requires
        start <= s@.len(),
    ensures
        r == (if bounded_digits(s@.skip(start as int), bound as nat) {
            Some(digits_value(s@.skip(start as int)) as u64)
        } else {
            None::<u64>
        }),
{
    if start == s.len() {
        return None;
    }
    let mut acc: u64 = 0;
    let mut i: usize = start;
    while i < s.len()
        invariant
            start <= i <= s@.len(),
            acc as nat == digits_value(s@.subrange(start as int, i as int)),
            acc <= bound,
            all_digits(s@.subrange(start as int, i as int)),
        decreases s@.len() - i,
    {
        let b = s[i];
        assert(s@.subrange(start as int, i as int + 1).drop_last() =~= s@.subrange(
            start as int,
            i as int,
        ));
        if b < 48 || b > 57 {
            assert(!is_digit(s@.skip(start as int)[i - start]));
            return None;
        }
        let next: u128 = acc as u128 * 10 + (b - 48) as u128;
        if next > bound as u128 {
            proof {
                if all_digits(s@.skip(start as int)) {
                    assert(s@.skip(start as int).take(i - start + 1) =~= s@.subrange(
                        start as int,
                        i as int + 1,
                    ));
                    lemma_prefix_value_le(s@.skip(start as int), i - start + 1);
                }
            }
            return None;
        }
        acc = next as u64;
        i = i + 1;
    }
    assert(s@.subrange(start as int, i as int) =~= s@.skip(start as int));
    Some(acc)
}

/// Parses an unsigned numeral into a `usize`.
pub fn parse_usize(s: &[u8]) -> (r: Option<usize>)
    ensures
        r matches Some(v) ==> parse_unsigned(s@) == Some(v as nat),
        r is None ==> parse_unsigned(s@) is None,
{
    let start: usize = if s.len() > 0 && s[0] == 43 { 1 } else { 0 };
    assert(after_plus(s@) =~= s@.skip(start as int));
    match read_digits(s, start, usize::MAX as u64) {
        Some(v) => Some(v as usize),
        None => None,
    }
}

/// Parses a signed numeral into an `i64`.
pub fn parse_i64(s: &[u8]) -> (r: Option<i64>)
    ensures
        r matches Some(v) ==> parse_signed(s@) == Some(v as int),
        r is None ==> parse_signed(s@) is None,
{
    if s.len() > 0 && s[0] == 45 {
        match read_digits(s, 1, 0x8000_0000_0000_0000u64) {
            Some(m) => {
                if m == 0x8000_0000_0000_0000u64 {
                    Some(i64::MIN)
                } else {
                    Some(-(m as i64))
                }
            },
            None => None,
        }
    } else {
        let start: usize = if s.len() > 0 && s[0] == 43 { 1 } else { 0 };
        assert(after_plus(s@) =~= s@.skip(start as int));
        match read_digits(s, start, i64::MAX as u64) {
            Some(v) => Some(v as i64),
            None => None,
        }
    }
}

/// Appends the shortest decimal rendering of `n`.
pub fn push_decimal(out: &mut Vec<u8>, n: u64)
    ensures
        final(out)@ == old(out)@ + nat_text(n as nat),
    decreases n,
{
    if n >= 10 {
        push_decimal(out, n / 10);
    }
    out.push((n % 10 + 48) as u8);
    proof {
        if n >= 10 {
            assert(old(out)@ + nat_text(n as nat) =~= old(out)@ + nat_text((n / 10) as nat) + seq![
                (n % 10 + 48) as u8,
            ]);
        } else {
            assert(nat_text(n as nat) =~= seq![(n + 48) as u8]);
        }
    }
}

/// Appends `v` with an explicit sign: `+` for zero and above, `-` below.
pub fn push_signed(out: &mut Vec<u8>, v: i64)
    ensures
        final(out)@ == old(out)@ + signed_text(v as int),
{
    let ghost start = out@;
    if v < 0 {
        out.push(45u8);
        let m: u64 = if v == i64::MIN { 0x8000_0000_0000_0000u64 } else { (-v) as u64 };
        push_decimal(out, m);
        assert(out@ =~= start + signed_text(v as int));
    } else {
        out.push(43u8);
        push_decimal(out, v as u64);
        assert(out@ =~= start + signed_text(v as int));
    }
}

} // verus!
