//! Percent-encoding of URL components (RFC 3986): every byte outside the
//! unreserved set is written `%XX` with upper-case hex digits, and decoding
//! turns each well-formed `%XX` back into its byte.
use vstd::prelude::*;

verus! {

/// The byte `%`.
pub const PERCENT: u8 = 37;

/// `A-Z`, `a-z`, `0-9`, `-`, `.`, `_` and `~`: the bytes written as they are.
pub open spec fn is_unreserved(b: u8) -> bool {
    (65 <= b <= 90) || (97 <= b <= 122) || (48 <= b <= 57) || b == 45 || b == 46 || b == 95
        || b == 126
}

/// A hex digit of either case.
pub open spec fn is_hex(b: u8) -> bool {
    (48 <= b <= 57) || (65 <= b <= 70) || (97 <= b <= 102)
}

/// The value of a hex digit.
pub open spec fn hex_value(b: u8) -> u8 {
    if 48 <= b <= 57 {
        (b - 48) as u8
    } else if 65 <= b <= 70 {
        (b - 55) as u8
    } else {
        (b - 87) as u8
    }
}

/// The upper-case hex digit of a value below 16.
pub open spec fn hex_digit(n: u8) -> u8 {
    if n < 10 {
        (48 + n) as u8
    } else {
        (55 + n) as u8
    }
}

/// How one byte is written.
pub open spec fn encode_byte(b: u8) -> Seq<u8> {
    if is_unreserved(b) {
        seq![b]
    } else {
        seq![PERCENT, hex_digit(b / 16), hex_digit(b % 16)]
    }
}

/// The percent-encoding of `s`.
pub open spec fn percent_encode(s: Seq<u8>) -> Seq<u8>
    decreases s.len(),
{
    if s.len() == 0 {
        Seq::empty()
    } else {
        encode_byte(s[0]) + percent_encode(s.drop_first())
    }
}

/// The percent-decoding of `s`: `%` and two hex digits give one byte; any
/// other byte, a stray `%` included, stands for itself.
pub open spec fn percent_decode(s: Seq<u8>) -> Seq<u8>
    decreases s.len(),
{
    if s.len() == 0 {
        Seq::empty()
    } else if s[0] == PERCENT && s.len() >= 3 && is_hex(s[1]) && is_hex(s[2]) {
        seq![(hex_value(s[1]) * 16 + hex_value(s[2])) as u8] + percent_decode(
            s.subrange(3, s.len() as int),
        )
    } else {
        seq![s[0]] + percent_decode(s.drop_first())
    }
}

/// Encoding a sequence with one more byte adds that byte's encoding.
pub proof fn lemma_encode_push(a: Seq<u8>, x: u8)
    ensures
        percent_encode(a.push(x)) == percent_encode(a) + encode_byte(x),
    decreases a.len(),
{
    if a.len() == 0 {
        assert(a.push(x).drop_first() =~= Seq::<u8>::empty());
        assert(a.push(x)[0] == x);
        assert(percent_encode(a.push(x).drop_first()) == Seq::<u8>::empty());
        assert(percent_encode(a) == Seq::<u8>::empty());
        assert(percent_encode(a.push(x)) =~= percent_encode(a) + encode_byte(x));
    } else {
        assert(a.push(x).drop_first() =~= a.drop_first().push(x));
        lemma_encode_push(a.drop_first(), x);
        assert(percent_encode(a.push(x)) =~= percent_encode(a) + encode_byte(x));
    }
}

/// An encoded byte decodes back to itself, whatever follows it.
pub proof fn lemma_decode_encoded_byte(b: u8, t: Seq<u8>)
    ensures
        percent_decode(encode_byte(b) + t) == seq![b] + percent_decode(t),
{
    let x = encode_byte(b) + t;
    if is_unreserved(b) {
        assert(x.drop_first() =~= t);
    } else {
        assert(x[0] == PERCENT);
        assert(x[1] == hex_digit(b / 16));
        assert(x[2] == hex_digit(b % 16));
        assert(hex_value(hex_digit(b / 16)) == b / 16);
        assert(hex_value(hex_digit(b % 16)) == b % 16);
        assert((b / 16) * 16 + b % 16 == b);
        assert(x.subrange(3, x.len() as int) =~= t);
    }
}

/// Decoding undoes encoding.
pub proof fn lemma_decode_encode(s: Seq<u8>)
    ensures
        percent_decode(percent_encode(s)) == s,
    decreases s.len(),
{
    if s.len() > 0 {
        lemma_decode_encoded_byte(s[0], percent_encode(s.drop_first()));
        lemma_decode_encode(s.drop_first());
        assert(seq![s[0]] + s.drop_first() =~= s);
    }
}

/// A sequence without `%` decodes to itself.
pub proof fn lemma_decode_plain(s: Seq<u8>)
    requires
        !s.contains(PERCENT),
    ensures
        percent_decode(s) == s,
    decreases s.len(),
{
    if s.len() > 0 {
        assert(s[0] != PERCENT);
        assert(!s.drop_first().contains(PERCENT)) by {
            assert forall|j: int| 0 <= j < s.drop_first().len() implies s.drop_first()[j]
                != PERCENT by {
                assert(s.drop_first()[j] == s[j + 1]);
            }
        }
        lemma_decode_plain(s.drop_first());
        assert(seq![s[0]] + s.drop_first() =~= s);
    }
}

/// Every byte of an encoding is unreserved, `%` or a hex digit.
pub proof fn lemma_encode_bytes(s: Seq<u8>)
    ensures
        forall|i: int|
            0 <= i < percent_encode(s).len() ==> is_unreserved(#[trigger] percent_encode(s)[i])
                || percent_encode(s)[i] == PERCENT,
    decreases s.len(),
{
    if s.len() > 0 {
        lemma_encode_bytes(s.drop_first());
        let h = encode_byte(s[0]);
        let r = percent_encode(s.drop_first());
        assert forall|i: int| 0 <= i < percent_encode(s).len() implies is_unreserved(
            #[trigger] percent_encode(s)[i],
        ) || percent_encode(s)[i] == PERCENT by {
            if i >= h.len() {
                assert(percent_encode(s)[i] == r[i - h.len()]);
            }
        }
    }
}

fn is_unreserved_byte(b: u8) -> (r: bool)
    ensures
        r == is_unreserved(b),
{
    (65 <= b && b <= 90) || (97 <= b && b <= 122) || (48 <= b && b <= 57) || b == 45 || b == 46
        || b == 95 || b == 126
}

fn is_hex_byte(b: u8) -> (r: bool)
    ensures
        r == is_hex(b),
{
    (48 <= b && b <= 57) || (65 <= b && b <= 70) || (97 <= b && b <= 102)
}

fn hex_value_of(b: u8) -> (r: u8)
    requires
        is_hex(b),
    ensures
        r == hex_value(b),
        r < 16,
{
    if 48 <= b && b <= 57 {
        b - 48
    } else if 65 <= b && b <= 70 {
        b - 55
    } else {
        b - 87
    }
}

fn hex_digit_of(n: u8) -> (r: u8)
    requires
        n < 16,
    ensures
        r == hex_digit(n),
{
    if n < 10 {
        48 + n
    } else {
        55 + n
    }
}

/// Appends the percent-encoding of `s` to `out`.
pub fn encode_into(out: &mut Vec<u8>, s: &[u8])
    ensures
        final(out)@ == old(out)@ + percent_encode(s@),
{
    let ghost start = out@;
    let mut i: usize = 0;
    while i < s.len()
        invariant
            i <= s@.len(),
            out@ == start + percent_encode(s@.subrange(0, i as int)),
        decreases s@.len() - i,
    {
        let b = s[i];
        proof {
            lemma_encode_push(s@.subrange(0, i as int), b);
            assert(s@.subrange(0, i as int).push(b) =~= s@.subrange(0, i as int + 1));
        }
        if is_unreserved_byte(b) {
            out.push(b);
        } else {
            out.push(PERCENT);
            out.push(hex_digit_of(b / 16));
            out.push(hex_digit_of(b % 16));
        }
        assert(out@ =~= start + percent_encode(s@.subrange(0, i as int + 1)));
        i += 1;
    }
    assert(s@.subrange(0, s@.len() as int) =~= s@);
}

/// The percent-encoding of `s`.
pub fn encode(s: &[u8]) -> (r: Vec<u8>)
    ensures
        r@ == percent_encode(s@),
{
    let mut out: Vec<u8> = Vec::new();
    encode_into(&mut out, s);
    assert(out@ =~= percent_encode(s@));
    out
}

/// The percent-decoding of `s[lo..hi]`.
pub fn decode_range(s: &[u8], lo: usize, hi: usize) -> (r: Vec<u8>)
    requires
        lo <= hi <= s@.len(),
    ensures
        r@ == percent_decode(s@.subrange(lo as int, hi as int)),
{
    let mut out: Vec<u8> = Vec::new();
    let mut i = lo;
    while i < hi
        invariant
            lo <= i <= hi <= s@.len(),
            out@ + percent_decode(s@.subrange(i as int, hi as int)) == percent_decode(
                s@.subrange(lo as int, hi as int),
            ),
        decreases hi - i,
    {
        let ghost t = s@.subrange(i as int, hi as int);
        let ghost prev = out@;
        if s[i] == PERCENT && hi - i >= 3 && is_hex_byte(s[i + 1]) && is_hex_byte(s[i + 2]) {
            let v = hex_value_of(s[i + 1]) * 16 + hex_value_of(s[i + 2]);
            out.push(v);
            proof {
                assert(t[1] == s@[i + 1]);
                assert(t[2] == s@[i + 2]);
                assert(t.subrange(3, t.len() as int) =~= s@.subrange(i + 3, hi as int));
                assert(out@ + percent_decode(s@.subrange(i + 3, hi as int)) =~= prev
                    + percent_decode(t));
            }
            i += 3;
        } else {
            out.push(s[i]);
            proof {
                assert(t[0] == s@[i as int]);
                if t.len() >= 3 {
                    assert(t[1] == s@[i + 1]);
                    assert(t[2] == s@[i + 2]);
                }
                assert(t.drop_first() =~= s@.subrange(i + 1, hi as int));
                assert(out@ + percent_decode(s@.subrange(i + 1, hi as int)) =~= prev
                    + percent_decode(t));
            }
            i += 1;
        }
    }
    assert(out@ + percent_decode(s@.subrange(hi as int, hi as int)) =~= out@);
    out
}

/// The percent-decoding of `s`.
pub fn decode(s: &[u8]) -> (r: Vec<u8>)
    ensures
        r@ == percent_decode(s@),
{
    let r = decode_range(s, 0, s.len());
    assert(s@.subrange(0, s@.len() as int) =~= s@);
    r
}

} // verus!
