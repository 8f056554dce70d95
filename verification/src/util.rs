//! Byte-level helpers shared by the request, page and response modules:
//! appending text to byte buffers, decimal rendering of integers, and the
//! byte-wise lexicographic order used to sort directory listings.

use vstd::prelude::*;
use vstd::relations::{sorted_by, total_ordering};
use vstd::string::StringSliceAdditionalSpecFns;

verus! {

/// The byte value of `/`.
pub const SLASH: u8 = 0x2f;

/// The byte value of `%`.
pub const PERCENT: u8 = 0x25;

/// The UTF-8 bytes of a string slice; used to name the fixed template
/// fragments that the page and response builders emit.
pub open spec fn lit(s: &str) -> Seq<u8> {
    s.spec_bytes()
}

/// Appends the UTF-8 bytes of a string slice to a byte buffer.
pub fn append_str(out: &mut Vec<u8>, s: &str)
    ensures
        final(out)@ == old(out)@ + s.spec_bytes(),
{
    out.extend_from_slice(s.as_bytes());
}

/// Appends a copy of a byte vector to a byte buffer.
pub fn append_bytes(out: &mut Vec<u8>, v: &Vec<u8>)
    ensures
        final(out)@ == old(out)@ + v@,
{
    out.extend_from_slice(v.as_slice());
}

/// The decimal digits of `n`, most significant first, as ASCII bytes.
pub open spec fn dec_spec(n: nat) -> Seq<u8>
    decreases n,
{
    if n < 10 {
        seq![(0x30 + n) as u8]
    } else {
        dec_spec(n / 10).push((0x30 + n % 10) as u8)
    }
}

/// Renders `n` in decimal as ASCII bytes.
pub fn dec_bytes(n: u64) -> (r: Vec<u8>)
    ensures
        r@ == dec_spec(n as nat),
{
    let mut r: Vec<u8> = Vec::new();
    let mut m: u64 = n;
    proof {
        assert(dec_spec(n as nat) + r@ =~= dec_spec(n as nat));
    }
    while m >= 10
        invariant
            dec_spec(n as nat) == dec_spec(m as nat) + r@,
        decreases m,
    {
        let ghost r0: Seq<u8> = r@;
        let d: u8 = (m % 10) as u8 + 0x30;
        r.insert(0, d);
        proof {
            assert(dec_spec(m as nat) == dec_spec((m / 10) as nat).push(
                (0x30 + m as nat % 10) as u8,
            ));
            assert(seq![d] + r0 =~= r0.insert(0, d));
            assert(dec_spec((m / 10) as nat) + (seq![d] + r0) =~= (dec_spec((m / 10) as nat).push(
                d,
            )) + r0);
        }
        m = m / 10;
    }
    let ghost r1: Seq<u8> = r@;
    let d: u8 = m as u8 + 0x30;
    r.insert(0, d);
    proof {
        assert(dec_spec(m as nat) == seq![d]);
        assert(seq![d] + r1 =~= r1.insert(0, d));
    }
    r
}

/// Byte-wise (ordinal) lexicographic order on byte strings.
pub open spec fn lex_le(a: Seq<u8>, b: Seq<u8>) -> bool
    decreases a.len(),
{
    if a.len() == 0 {
        true
    } else if b.len() == 0 {
        false
    } else if a[0] < b[0] {
        true
    } else if a[0] > b[0] {
        false
    } else {
        lex_le(a.drop_first(), b.drop_first())
    }
}

/// `lex_le` as a binary relation value, for use with vstd's ordering lemmas.
pub open spec fn lex_leq() -> spec_fn(Seq<u8>, Seq<u8>) -> bool {
    |a: Seq<u8>, b: Seq<u8>| lex_le(a, b)
}

proof fn lemma_lex_refl(a: Seq<u8>)
    ensures
        lex_le(a, a),
    decreases a.len(),
{
    if a.len() > 0 {
        lemma_lex_refl(a.drop_first());
    }
}

proof fn lemma_lex_antisym(a: Seq<u8>, b: Seq<u8>)
    requires
        lex_le(a, b),
        lex_le(b, a),
    ensures
        a == b,
    decreases a.len(),
{
    if a.len() == 0 {
        assert(b.len() == 0);
        assert(a =~= b);
    } else {
        lemma_lex_antisym(a.drop_first(), b.drop_first());
        assert forall|i: int| 0 <= i < a.len() implies a[i] == b[i] by {
            if i > 0 {
                assert(a.drop_first()[i - 1] == b.drop_first()[i - 1]);
            }
        }
        assert(a =~= b);
    }
}

proof fn lemma_lex_trans(a: Seq<u8>, b: Seq<u8>, c: Seq<u8>)
    requires
        lex_le(a, b),
        lex_le(b, c),
    ensures
        lex_le(a, c),
    decreases a.len(),
{
    if a.len() > 0 && b.len() > 0 && c.len() > 0 && a[0] == b[0] && b[0] == c[0] {
        lemma_lex_trans(a.drop_first(), b.drop_first(), c.drop_first());
    }
}

proof fn lemma_lex_conn(a: Seq<u8>, b: Seq<u8>)
    ensures
        lex_le(a, b) || lex_le(b, a),
    decreases a.len(),
{
    if a.len() > 0 && b.len() > 0 && a[0] == b[0] {
        lemma_lex_conn(a.drop_first(), b.drop_first());
    }
}

/// The byte-wise lexicographic order is a total order.
pub proof fn lemma_lex_total_ordering()
    ensures
        total_ordering(lex_leq()),
{
    assert forall|a: Seq<u8>| #[trigger] lex_leq()(a, a) by {
        lemma_lex_refl(a);
    }
    assert forall|a: Seq<u8>, b: Seq<u8>|
        #[trigger] lex_leq()(a, b) && #[trigger] lex_leq()(b, a) implies a == b by {
        lemma_lex_antisym(a, b);
    }
    assert forall|a: Seq<u8>, b: Seq<u8>, c: Seq<u8>|
        #[trigger] lex_leq()(a, b) && #[trigger] lex_leq()(b, c) implies lex_leq()(a, c) by {
        lemma_lex_trans(a, b, c);
    }
    assert forall|a: Seq<u8>, b: Seq<u8>| #[trigger] lex_leq()(a, b) || #[trigger] lex_leq()(
        b,
        a,
    ) by {
        lemma_lex_conn(a, b);
    }
}

/// Compares two byte strings in the byte-wise lexicographic order.
pub fn lex_le_bytes(a: &Vec<u8>, b: &Vec<u8>) -> (r: bool)
    ensures
        r == lex_le(a@, b@),
{
    let mut i: usize = 0;
    proof {
        assert(a@.skip(0) =~= a@);
        assert(b@.skip(0) =~= b@);
    }
    loop
        invariant
            i <= a.len(),
            i <= b.len(),
            lex_le(a@, b@) == lex_le(a@.skip(i as int), b@.skip(i as int)),
        decreases a.len() - i,
    {
        if i == a.len() {
            return true;
        }
        if i == b.len() {
            return false;
        }
        let x = a[i];
        let y = b[i];
        if x < y {
            return true;
        }
        if x > y {
            return false;
        }
        proof {
            assert(a@.skip(i as int).drop_first() =~= a@.skip(i as int + 1));
            assert(b@.skip(i as int).drop_first() =~= b@.skip(i as int + 1));
        }
        i = i + 1;
    }
}

/// Sorts byte strings into the byte-wise lexicographic order.
pub fn sort_names(names: Vec<Vec<u8>>) -> (r: Vec<Vec<u8>>)
    ensures
        r.deep_view() == names.deep_view().sort_by(lex_leq()),
{
    let ghost orig: Seq<Seq<u8>> = names.deep_view();
    let mut src = names;
    let mut out: Vec<Vec<u8>> = Vec::new();
    proof {
        broadcast use vstd::seq_lib::group_to_multiset_ensures;

        assert(out.deep_view() =~= Seq::<Seq<u8>>::empty());
        assert(out.deep_view().to_multiset().add(src.deep_view().to_multiset()) =~= orig.to_multiset());
    }
    while src.len() > 0
        invariant
            out.deep_view().to_multiset().add(src.deep_view().to_multiset())
                == orig.to_multiset(),
            sorted_by(out.deep_view(), lex_leq()),
            forall|x: Seq<u8>, y: Seq<u8>|
                out.deep_view().contains(x) && src.deep_view().contains(y) ==> lex_le(x, y),
        decreases src.len(),
    {
        let ghost src0: Seq<Seq<u8>> = src.deep_view();
        proof {
            assert forall|k: int| 0 <= k < src@.len() implies #[trigger] src0[k] == src@[k]@ by {}
            lemma_lex_refl(src0[0]);
        }
        let mut m: usize = 0;
        let mut j: usize = 1;
        while j < src.len()
            invariant
                src.len() > 0,
                src0 == src.deep_view(),
                forall|k: int| 0 <= k < src@.len() ==> #[trigger] src0[k] == src@[k]@,
                m < j,
                j <= src.len(),
                forall|k: int| 0 <= k < j ==> lex_le(src0[m as int], #[trigger] src0[k]),
            decreases src.len() - j,
        {
            if lex_le_bytes(&src[j], &src[m]) {
                proof {
                    lemma_lex_refl(src0[j as int]);
                    assert forall|k: int| 0 <= k < j + 1 implies lex_le(
                        src0[j as int],
                        #[trigger] src0[k],
                    ) by {
                        if k < j {
                            lemma_lex_trans(src0[j as int], src0[m as int], src0[k]);
                        }
                    }
                }
                m = j;
            } else {
                proof {
                    lemma_lex_conn(src0[j as int], src0[m as int]);
                }
            }
            j = j + 1;
        }
        let ghost out0: Seq<Seq<u8>> = out.deep_view();
        let e = src.remove(m);
        out.push(e);
        proof {
            broadcast use vstd::seq_lib::group_to_multiset_ensures;
            broadcast use vstd::multiset::group_multiset_axioms;

            assert(e@ == src0[m as int]);
            assert forall|k: int| 0 <= k < src.deep_view().len() implies src.deep_view()[k]
                == src0.remove(m as int)[k] by {}
            assert(src.deep_view() =~= src0.remove(m as int));
            assert forall|k: int| 0 <= k < out.deep_view().len() implies out.deep_view()[k]
                == out0.push(e@)[k] by {}
            assert(out.deep_view() =~= out0.push(e@));
            assert(src0.contains(e@));
            assert(out.deep_view().to_multiset().add(src.deep_view().to_multiset())
                =~= orig.to_multiset()) by {
                assert(src.deep_view().to_multiset() =~= src0.to_multiset().remove(e@));
                assert(out.deep_view().to_multiset() =~= out0.to_multiset().insert(e@));
                assert(src0.to_multiset().count(e@) > 0);
            }
            assert forall|x: Seq<u8>, y: Seq<u8>|
                out.deep_view().contains(x) && src.deep_view().contains(y) implies lex_le(
                x,
                y,
            ) by {
                let iy = choose|iy: int|
                    0 <= iy < src.deep_view().len() && src.deep_view()[iy] == y;
                assert(src0.contains(y)) by {
                    if iy < m {
                        assert(src0[iy] == y);
                    } else {
                        assert(src0[iy + 1] == y);
                    }
                }
                let ix = choose|ix: int|
                    0 <= ix < out.deep_view().len() && out.deep_view()[ix] == x;
                if ix < out.deep_view().len() - 1 {
                    assert(out0[ix] == x);
                    assert(out0.contains(x));
                } else {
                    assert(x == e@);
                }
            }
            assert(sorted_by(out.deep_view(), lex_leq())) by {
                assert forall|i: int, k: int|
                    0 <= i < k < out.deep_view().len() implies lex_leq()(
                    out.deep_view()[i],
                    out.deep_view()[k],
                ) by {
                    if k == out.deep_view().len() - 1 {
                        assert(out0.contains(out0[i]));
                        assert(src0.contains(e@));
                    }
                }
            }
        }
    }
    proof {
        broadcast use vstd::seq_lib::group_to_multiset_ensures;

        lemma_lex_total_ordering();
        assert(src.deep_view() =~= Seq::<Seq<u8>>::empty());
        assert(out.deep_view().to_multiset() =~= orig.to_multiset());
        orig.lemma_sort_by_ensures(lex_leq());
        vstd::seq_lib::lemma_sorted_unique(out.deep_view(), orig.sort_by(lex_leq()), lex_leq());
        assert(out.deep_view() =~= orig.sort_by(lex_leq()));
    }
    out
}

} // verus!
