//! Percent-encoding and -decoding of URI bytes, and HTML escaping of
//! untrusted text, together with the laws the server relies on: decoding
//! a string without `%` leaves it unchanged (so decoding is idempotent on
//! fully decoded strings), encoding round-trips through decoding, and
//! escaped text is free of raw markup characters.

use vstd::prelude::*;

use crate::util::PERCENT;

verus! {

/// The byte value of `&`.
pub const AMP: u8 = 0x26;

/// The byte value of `<`.
pub const LT: u8 = 0x3c;

/// The byte value of `>`.
pub const GT: u8 = 0x3e;

/// The byte value of `"`.
pub const QUOT: u8 = 0x22;

/// The byte value of `'`.
pub const APOS: u8 = 0x27;

/// True for ASCII hexadecimal digit bytes.
pub open spec fn is_hex_digit(b: u8) -> bool {
    (0x30 <= b && b <= 0x39) || (0x41 <= b && b <= 0x46) || (0x61 <= b && b <= 0x66)
}

/// The numeric value of a hexadecimal digit byte.
pub open spec fn hex_val(b: u8) -> u8
    recommends
        is_hex_digit(b),
{
    if 0x30 <= b && b <= 0x39 {
        (b - 0x30) as u8
    } else if 0x41 <= b && b <= 0x46 {
        (b - 0x41 + 10) as u8
    } else if 0x61 <= b && b <= 0x66 {
        (b - 0x61 + 10) as u8
    } else {
        0
    }
}

/// The byte decoded by an escape `%hi lo`.
pub open spec fn hex_pair(hi: u8, lo: u8) -> u8
    recommends
        is_hex_digit(hi),
        is_hex_digit(lo),
{
    (hex_val(hi) * 16 + hex_val(lo)) as u8
}

/// Percent-decoding: each `%` followed by two hexadecimal digits becomes
/// one byte; anything else, a lone or ill-formed `%` included, passes
/// through unchanged.
pub open spec fn decoded(s: Seq<u8>) -> Seq<u8>
    decreases s.len(),
{
    if s.len() == 0 {
        Seq::empty()
    } else if s[0] == PERCENT && s.len() >= 3 && is_hex_digit(s[1]) && is_hex_digit(s[2]) {
        seq![hex_pair(s[1], s[2])] + decoded(s.skip(3))
    } else {
        seq![s[0]] + decoded(s.skip(1))
    }
}

/// True for the bytes that `percent_encode` escapes: the reserved HTTP
/// characters other than the slash, the ASCII controls, and every
/// non-ASCII byte.
pub open spec fn is_reserved(b: u8) -> bool {
    b <= 0x2c || b == 0x3a || b == 0x3b || b == 0x3d || b == 0x3f || b == 0x40 || b == 0x5b || b
        == 0x5d || b >= 0x7f
}

/// The upper-case hexadecimal digit byte for a value below 16.
pub open spec fn hex_digit(n: u8) -> u8
    recommends
        n < 16,
{
    if n < 10 {
        (0x30 + n) as u8
    } else {
        (0x41 + n - 10) as u8
    }
}

/// Percent-encoding: each reserved byte becomes `%` and two upper-case
/// hexadecimal digits; all other bytes pass through unchanged.
pub open spec fn encoded(s: Seq<u8>) -> Seq<u8>
    decreases s.len(),
{
    if s.len() == 0 {
        Seq::empty()
    } else {
        (if is_reserved(s[0]) {
            seq![PERCENT, hex_digit(s[0] / 16), hex_digit(s[0] % 16)]
        } else {
            seq![s[0]]
        }) + encoded(s.skip(1))
    }
}

/// The HTML escape of a single byte.
pub open spec fn escaped1(b: u8) -> Seq<u8> {
    if b == QUOT {
        seq![0x26u8, 0x71u8, 0x75u8, 0x6fu8, 0x74u8, 0x3bu8]  // &quot;
    } else if b == AMP {
        seq![0x26u8, 0x61u8, 0x6du8, 0x70u8, 0x3bu8]  // &amp;
    } else if b == APOS {
        seq![0x26u8, 0x23u8, 0x33u8, 0x39u8, 0x3bu8]  // &#39;
    } else if b == LT {
        seq![0x26u8, 0x6cu8, 0x74u8, 0x3bu8]  // &lt;
    } else if b == GT {
        seq![0x26u8, 0x67u8, 0x74u8, 0x3bu8]  // &gt;
    } else {
        seq![b]
    }
}

/// HTML escaping of text: `&`, `<`, `>`, `"` and `'` become character
/// entities; all other bytes pass through unchanged.
pub open spec fn escaped(s: Seq<u8>) -> Seq<u8>
    decreases s.len(),
{
    if s.len() == 0 {
        Seq::empty()
    } else {
        escaped1(s[0]) + escaped(s.skip(1))
    }
}

/// Decodes any percent escapes in a byte string.
pub fn percent_decode(s: &Vec<u8>) -> (r: Vec<u8>)
    ensures
        r@ == decoded(s@),
{
    let mut r: Vec<u8> = Vec::new();
    let mut i: usize = 0;
    proof {
        assert(s@.skip(0) =~= s@);
        assert(r@ + decoded(s@) =~= decoded(s@));
    }
    while i < s.len()
        invariant
            i <= s.len(),
            decoded(s@) == r@ + decoded(s@.skip(i as int)),
        decreases s.len() - i,
    {
        let ghost t: Seq<u8> = s@.skip(i as int);
        let ghost r0: Seq<u8> = r@;
        proof {
            assert(t[0] == s@[i as int]);
        }
        if s[i] == PERCENT && s.len() - i > 2 && is_hex_digit_byte(s[i + 1]) && is_hex_digit_byte(
            s[i + 2],
        ) {
            proof {
                assert(t.len() >= 3);
                assert(t[1] == s@[i as int + 1]);
                assert(t[2] == s@[i as int + 2]);
                assert(t.skip(3) =~= s@.skip(i as int + 3));
                assert(decoded(t) == seq![hex_pair(t[1], t[2])] + decoded(t.skip(3)));
            }
            let hi = hex_val_byte(s[i + 1]);
            let lo = hex_val_byte(s[i + 2]);
            let b: u8 = hi * 16 + lo;
            r.push(b);
            proof {
                assert(r@ =~= r0 + seq![b]);
                assert(r@ + decoded(s@.skip(i as int + 3)) =~= r0 + decoded(t));
            }
            i = i + 3;
        } else {
            let b = s[i];
            r.push(b);
            proof {
                assert(decoded(t) == seq![b] + decoded(t.skip(1)));
                assert(t.skip(1) =~= s@.skip(i as int + 1));
                assert(r@ =~= r0 + seq![b]);
                assert(r@ + decoded(s@.skip(i as int + 1)) =~= r0 + decoded(t));
            }
            i = i + 1;
        }
    }
    proof {
        assert(s@.skip(s@.len() as int) =~= Seq::<u8>::empty());
        assert(r@ + decoded(Seq::<u8>::empty()) =~= r@);
    }
    r
}

/// Executable test matching `is_hex_digit`.
fn is_hex_digit_byte(b: u8) -> (r: bool)
    ensures
        r == is_hex_digit(b),
{
    (0x30 <= b && b <= 0x39) || (0x41 <= b && b <= 0x46) || (0x61 <= b && b <= 0x66)
}

/// The numeric value of a hexadecimal digit byte.
fn hex_val_byte(b: u8) -> (r: u8)
    requires
        is_hex_digit(b),
    ensures
        r == hex_val(b),
        r < 16,
{
    if 0x30 <= b && b <= 0x39 {
        b - 0x30
    } else if 0x41 <= b && b <= 0x46 {
        b - 0x41 + 10
    } else {
        b - 0x61 + 10
    }
}

/// The upper-case hexadecimal digit byte for a value below 16.
fn hex_digit_byte(n: u8) -> (r: u8)
    requires
        n < 16,
    ensures
        r == hex_digit(n),
{
    if n < 10 {
        0x30 + n
    } else {
        0x41 + n - 10
    }
}

/// Executable test matching `is_reserved`.
fn is_reserved_byte(b: u8) -> (r: bool)
    ensures
        r == is_reserved(b),
{
    b <= 0x2c || b == 0x3a || b == 0x3b || b == 0x3d || b == 0x3f || b == 0x40 || b == 0x5b || b
        == 0x5d || b >= 0x7f
}

/// Percent-encodes the reserved bytes of a URI component.
pub fn percent_encode(s: &Vec<u8>) -> (r: Vec<u8>)
    ensures
        r@ == encoded(s@),
{
    let mut r: Vec<u8> = Vec::new();
    let mut i: usize = 0;
    proof {
        assert(s@.skip(0) =~= s@);
        assert(r@ + encoded(s@) =~= encoded(s@));
    }
    while i < s.len()
        invariant
            i <= s.len(),
            encoded(s@) == r@ + encoded(s@.skip(i as int)),
        decreases s.len() - i,
    {
        let ghost t: Seq<u8> = s@.skip(i as int);
        let ghost r0: Seq<u8> = r@;
        proof {
            assert(t[0] == s@[i as int]);
            assert(t.skip(1) =~= s@.skip(i as int + 1));
        }
        let b = s[i];
        if is_reserved_byte(b) {
            r.push(PERCENT);
            r.push(hex_digit_byte(b / 16));
            r.push(hex_digit_byte(b % 16));
            proof {
                assert(r@ =~= r0 + seq![PERCENT, hex_digit(b / 16), hex_digit(b % 16)]);
            }
        } else {
            r.push(b);
            proof {
                assert(r@ =~= r0 + seq![b]);
            }
        }
        proof {
            assert(r@ + encoded(s@.skip(i as int + 1)) =~= r0 + encoded(t));
        }
        i = i + 1;
    }
    proof {
        assert(s@.skip(s@.len() as int) =~= Seq::<u8>::empty());
        assert(r@ + encoded(Seq::<u8>::empty()) =~= r@);
    }
    r
}

/// Escapes the HTML markup characters in untrusted text.
pub fn html_escape(s: &Vec<u8>) -> (r: Vec<u8>)
    ensures
        r@ == escaped(s@),
{
    let mut r: Vec<u8> = Vec::new();
    let mut i: usize = 0;
    proof {
        assert(s@.skip(0) =~= s@);
        assert(r@ + escaped(s@) =~= escaped(s@));
    }
    while i < s.len()
        invariant
            i <= s.len(),
            escaped(s@) == r@ + escaped(s@.skip(i as int)),
        decreases s.len() - i,
    {
        let ghost t: Seq<u8> = s@.skip(i as int);
        let ghost r0: Seq<u8> = r@;
        proof {
            assert(t[0] == s@[i as int]);
            assert(t.skip(1) =~= s@.skip(i as int + 1));
        }
        let b = s[i];
        if b == QUOT {
            r.push(0x26);
            r.push(0x71);
            r.push(0x75);
            r.push(0x6f);
            r.push(0x74);
            r.push(0x3b);
        } else if b == AMP {
            r.push(0x26);
            r.push(0x61);
            r.push(0x6d);
            r.push(0x70);
            r.push(0x3b);
        } else if b == APOS {
            r.push(0x26);
            r.push(0x23);
            r.push(0x33);
            r.push(0x39);
            r.push(0x3b);
        } else if b == LT {
            r.push(0x26);
            r.push(0x6c);
            r.push(0x74);
            r.push(0x3b);
        } else if b == GT {
            r.push(0x26);
            r.push(0x67);
            r.push(0x74);
            r.push(0x3b);
        } else {
            r.push(b);
        }
        proof {
            assert(r@ =~= r0 + escaped1(b));
            assert(r@ + escaped(s@.skip(i as int + 1)) =~= r0 + escaped(t));
        }
        i = i + 1;
    }
    proof {
        assert(s@.skip(s@.len() as int) =~= Seq::<u8>::empty());
        assert(r@ + escaped(Seq::<u8>::empty()) =~= r@);
    }
    r
}

/// Decoding leaves a byte string without `%` unchanged.
pub proof fn lemma_decode_plain_identity(s: Seq<u8>)
    requires
        !s.contains(PERCENT),
    ensures
        decoded(s) == s,
    decreases s.len(),
{
    if s.len() == 0 {
        assert(decoded(s) =~= s);
    } else {
        assert(s[0] != PERCENT);
        assert(!s.skip(1).contains(PERCENT)) by {
            assert(forall|i: int|
                0 <= i < s.skip(1).len() ==> #[trigger] s.skip(1)[i] == s[i + 1]);
        }
        lemma_decode_plain_identity(s.skip(1));
        assert(decoded(s) =~= s);
    }
}

/// Decoding is idempotent once its result contains no further `%`:
/// a second decoding pass sees no escapes and changes nothing.
pub proof fn lemma_decode_idempotent(s: Seq<u8>)
    requires
        !decoded(s).contains(PERCENT),
    ensures
        decoded(decoded(s)) == decoded(s),
{
    lemma_decode_plain_identity(decoded(s));
}

proof fn lemma_hex_digit_inverse(n: u8)
    requires
        n < 16,
    ensures
        is_hex_digit(hex_digit(n)),
        hex_val(hex_digit(n)) == n,
{
}

/// Decoding undoes encoding exactly.
pub proof fn lemma_encode_decode_roundtrip(s: Seq<u8>)
    ensures
        decoded(encoded(s)) == s,
    decreases s.len(),
{
    if s.len() == 0 {
        assert(decoded(encoded(s)) =~= s);
    } else {
        let b = s[0];
        let rest = s.skip(1);
        lemma_encode_decode_roundtrip(rest);
        if is_reserved(b) {
            let chunk = seq![PERCENT, hex_digit(b / 16), hex_digit(b % 16)];
            assert(encoded(s) == chunk + encoded(rest));
            lemma_hex_digit_inverse(b / 16);
            lemma_hex_digit_inverse(b % 16);
            let t = encoded(s);
            assert(t.len() >= 3);
            assert(t[0] == PERCENT && is_hex_digit(t[1]) && is_hex_digit(t[2]));
            assert(hex_pair(t[1], t[2]) == b) by {
                assert(hex_val(t[1]) == b / 16 && hex_val(t[2]) == b % 16);
            }
            assert(t.skip(3) =~= encoded(rest));
            assert(decoded(t) == seq![b] + decoded(encoded(rest)));
            assert(seq![b] + rest =~= s);
        } else {
            assert(b != PERCENT);
            let t = encoded(s);
            assert(t == seq![b] + encoded(rest));
            assert(t[0] == b);
            if t.len() >= 3 && t[0] == PERCENT && is_hex_digit(t[1]) && is_hex_digit(t[2]) {
                assert(false);
            }
            assert(t.skip(1) =~= encoded(rest));
            assert(decoded(t) == seq![b] + decoded(encoded(rest)));
            assert(seq![b] + rest =~= s);
        }
    }
}

/// True for the four characters that open or close HTML markup.
pub open spec fn is_markup(b: u8) -> bool {
    b == LT || b == GT || b == QUOT || b == APOS
}

/// Escaped text contains no raw `<`, `>`, `"` or `'`.
pub proof fn lemma_escaped_no_markup(s: Seq<u8>)
    ensures
        forall|i: int| 0 <= i < escaped(s).len() ==> !is_markup(#[trigger] escaped(s)[i]),
    decreases s.len(),
{
    if s.len() > 0 {
        lemma_escaped_no_markup(s.skip(1));
        assert forall|i: int| 0 <= i < escaped(s).len() implies !is_markup(
            #[trigger] escaped(s)[i],
        ) by {
            let c = escaped1(s[0]);
            if i >= c.len() {
                assert(escaped(s)[i] == escaped(s.skip(1))[i - c.len()]);
            }
        }
    }
}

/// True when the bytes of `e` occur in `t` starting at `i`.
pub open spec fn occurs_at(t: Seq<u8>, i: int, e: Seq<u8>) -> bool {
    0 <= i && i + e.len() <= t.len() && t.subrange(i, i + e.len()) == e
}

/// True when position `i` of `t` begins one of the five character
/// entities that `escaped` produces.
pub open spec fn entity_at(t: Seq<u8>, i: int) -> bool {
    occurs_at(t, i, escaped1(QUOT)) || occurs_at(t, i, escaped1(AMP)) || occurs_at(
        t,
        i,
        escaped1(APOS),
    ) || occurs_at(t, i, escaped1(LT)) || occurs_at(t, i, escaped1(GT))
}

/// Every `&` in escaped text begins a character entity written by the
/// escaper itself.
pub proof fn lemma_escaped_amp_is_entity(s: Seq<u8>)
    ensures
        forall|i: int|
            0 <= i < escaped(s).len() && escaped(s)[i] == AMP ==> entity_at(escaped(s), i),
    decreases s.len(),
{
    if s.len() > 0 {
        lemma_escaped_amp_is_entity(s.skip(1));
        let c = escaped1(s[0]);
        let rest = escaped(s.skip(1));
        let t = escaped(s);
        assert forall|i: int| 0 <= i < t.len() && t[i] == AMP implies entity_at(t, i) by {
            if i < c.len() {
                assert(t[i] == c[i]);
                assert(i == 0 && c.len() > 1) by {
                    assert(forall|k: int| 1 <= k < c.len() ==> c[k] != AMP);
                }
                assert(t.subrange(0, c.len() as int) =~= c);
            } else {
                let j = i - c.len();
                assert(t[i] == rest[j]);
                assert(entity_at(rest, j));
                if occurs_at(rest, j, escaped1(QUOT)) {
                    assert(t.subrange(i, i + escaped1(QUOT).len()) =~= escaped1(QUOT));
                } else if occurs_at(rest, j, escaped1(AMP)) {
                    assert(t.subrange(i, i + escaped1(AMP).len()) =~= escaped1(AMP));
                } else if occurs_at(rest, j, escaped1(APOS)) {
                    assert(t.subrange(i, i + escaped1(APOS).len()) =~= escaped1(APOS));
                } else if occurs_at(rest, j, escaped1(LT)) {
                    assert(t.subrange(i, i + escaped1(LT).len()) =~= escaped1(LT));
                } else {
                    assert(t.subrange(i, i + escaped1(GT).len()) =~= escaped1(GT));
                }
            }
        }
    }
}

} // verus!
