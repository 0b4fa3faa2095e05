//! Encodings tell where they end: a header, a byte string, an integer or a
//! list, followed by any bytes, can be told apart from what follows it. On
//! this rests that bytes stand for one value only.

use crate::rlp::{
    be_minimal, concat, lemma_be_value_of_minimal, pow256, rlp_header, rlp_list, rlp_string,
    rlp_uint,
};
use vstd::prelude::*;

verus! {

/// A payload length that a header can announce: one of at most 8 digits.
pub open spec fn fits(len: nat) -> bool {
    len <= u64::MAX
}

/// A number under 256 to the power `k` has at most `k` digits.
pub proof fn lemma_digits_bound(n: nat, k: nat)
    requires
        n < pow256(k),
    ensures
        be_minimal(n).len() <= k,
    decreases k,
{
    if n != 0 {
        lemma_digits_bound(n / 256, (k - 1) as nat);
    }
}

/// A length that fits has at most 8 digits, and at least one unless it is
/// zero.
pub proof fn lemma_length_digits(len: nat)
    requires
        fits(len),
    ensures
        be_minimal(len).len() <= 8,
        len > 0 ==> be_minimal(len).len() >= 1,
{
    reveal_with_fuel(pow256, 9);
    assert(pow256(8) == 0x1_0000_0000_0000_0000);
    lemma_digits_bound(len, 8);
}

/// A header, followed by any bytes, tells its kind and its length, and
/// where it ends.
pub proof fn lemma_header_delimits(
    list1: bool,
    len1: nat,
    after1: Seq<u8>,
    list2: bool,
    len2: nat,
    after2: Seq<u8>,
)
    requires
        fits(len1),
        fits(len2),
        rlp_header(list1, len1) + after1 == rlp_header(list2, len2) + after2,
    ensures
        list1 == list2,
        len1 == len2,
        after1 == after2,
{
    let h1 = rlp_header(list1, len1);
    let h2 = rlp_header(list2, len2);
    let d1 = be_minimal(len1);
    let d2 = be_minimal(len2);
    let w1 = h1 + after1;
    let w2 = h2 + after2;
    lemma_length_digits(len1);
    lemma_length_digits(len2);
    assert(w1[0] == h1[0]);
    assert(w2[0] == h2[0]);
    if len1 >= 56 {
        assert(d1.len() == d2.len());
        assert(d1 =~= w1.subrange(1, 1 + d1.len() as int));
        assert(d2 =~= w2.subrange(1, 1 + d2.len() as int));
        lemma_be_value_of_minimal(len1);
        lemma_be_value_of_minimal(len2);
    }
    assert(after1 =~= w1.subrange(h1.len() as int, w1.len() as int));
    assert(after2 =~= w2.subrange(h2.len() as int, w2.len() as int));
}

/// A byte string's encoding, followed by any bytes, tells the string and
/// where it ends.
pub proof fn lemma_string_delimits(s1: Seq<u8>, after1: Seq<u8>, s2: Seq<u8>, after2: Seq<u8>)
    requires
        fits(s1.len()),
        fits(s2.len()),
        rlp_string(s1) + after1 == rlp_string(s2) + after2,
    ensures
        s1 == s2,
        after1 == after2,
{
    let e1 = rlp_string(s1);
    let e2 = rlp_string(s2);
    let w1 = e1 + after1;
    let w2 = e2 + after2;
    lemma_length_digits(s1.len());
    lemma_length_digits(s2.len());
    assert(e1.len() >= 1 && e2.len() >= 1);
    assert(w1[0] == e1[0]);
    assert(w2[0] == e2[0]);
    if e1[0] < 0x80 {
        assert(s1.len() == 1 && s1[0] < 0x80);
        assert(s2.len() == 1 && s2[0] < 0x80);
        assert(s1 =~= w1.subrange(0, 1));
        assert(s2 =~= w2.subrange(0, 1));
        assert(after1 =~= w1.subrange(1, w1.len() as int));
        assert(after2 =~= w2.subrange(1, w2.len() as int));
    } else {
        assert(e1 == rlp_header(false, s1.len()) + s1);
        assert(e2 == rlp_header(false, s2.len()) + s2);
        assert(w1 =~= rlp_header(false, s1.len()) + (s1 + after1));
        assert(w2 =~= rlp_header(false, s2.len()) + (s2 + after2));
        lemma_header_delimits(false, s1.len(), s1 + after1, false, s2.len(), s2 + after2);
        assert(s1 =~= (s1 + after1).subrange(0, s1.len() as int));
        assert(s2 =~= (s2 + after2).subrange(0, s2.len() as int));
        assert(after1 =~= (s1 + after1).subrange(s1.len() as int, (s1 + after1).len() as int));
        assert(after2 =~= (s2 + after2).subrange(s2.len() as int, (s2 + after2).len() as int));
    }
}

/// A list's encoding, followed by any bytes, tells the payload of the list
/// and where it ends.
pub proof fn lemma_list_delimits(pa: Seq<u8>, after1: Seq<u8>, pb: Seq<u8>, after2: Seq<u8>)
    requires
        fits(pa.len()),
        fits(pb.len()),
        rlp_list(pa) + after1 == rlp_list(pb) + after2,
    ensures
        pa == pb,
        after1 == after2,
{
    assert(rlp_list(pa) + after1 =~= rlp_header(true, pa.len()) + (pa + after1));
    assert(rlp_list(pb) + after2 =~= rlp_header(true, pb.len()) + (pb + after2));
    lemma_header_delimits(true, pa.len(), pa + after1, true, pb.len(), pb + after2);
    assert(pa =~= (pa + after1).subrange(0, pa.len() as int));
    assert(pb =~= (pb + after2).subrange(0, pb.len() as int));
    assert(after1 =~= (pa + after1).subrange(pa.len() as int, (pa + after1).len() as int));
    assert(after2 =~= (pb + after2).subrange(pb.len() as int, (pb + after2).len() as int));
}

/// An integer's encoding, followed by any bytes, tells the integer and
/// where it ends.
pub proof fn lemma_uint_delimits(n1: nat, after1: Seq<u8>, n2: nat, after2: Seq<u8>)
    requires
        fits(be_minimal(n1).len()),
        fits(be_minimal(n2).len()),
        rlp_uint(n1) + after1 == rlp_uint(n2) + after2,
    ensures
        n1 == n2,
        after1 == after2,
{
    lemma_string_delimits(be_minimal(n1), after1, be_minimal(n2), after2);
    lemma_be_value_of_minimal(n1);
    lemma_be_value_of_minimal(n2);
}

/// The encoding `enc` tells its values apart on those that satisfy `ok`:
/// no encoding is empty, and an encoding followed by any bytes tells the
/// value and where it ends.
pub open spec fn delimited<T>(enc: spec_fn(T) -> Seq<u8>, ok: spec_fn(T) -> bool) -> bool {
    &&& forall|a: T| #[trigger] ok(a) ==> enc(a).len() > 0
    &&& forall|a: T, b: T, x: Seq<u8>, y: Seq<u8>|
        #![trigger enc(a) + x, enc(b) + y]
        ok(a) && ok(b) && enc(a) + x == enc(b) + y ==> a == b && x == y
}

/// Bytes of members one after the other start with the first member.
pub proof fn lemma_concat_front(parts: Seq<Seq<u8>>)
    requires
        parts.len() > 0,
    ensures
        concat(parts) == parts[0] + concat(parts.drop_first()),
    decreases parts.len(),
{
    if parts.len() == 1 {
        assert(concat(parts.drop_last()) =~= Seq::<u8>::empty());
        assert(concat(parts.drop_first()) =~= Seq::<u8>::empty());
        assert(concat(parts) =~= parts[0]);
    } else {
        let init = parts.drop_last();
        let rest = parts.drop_first();
        lemma_concat_front(init);
        assert(init.drop_first() =~= rest.drop_last());
        assert(concat(rest) == concat(rest.drop_last()) + rest.last());
        assert(concat(parts) =~= parts[0] + concat(rest));
    }
}

/// Sequences of values whose encoding tells them apart are equal where
/// their encodings, one after the other, are the same bytes.
pub proof fn lemma_sequence_delimited<T>(
    xs: Seq<T>,
    ys: Seq<T>,
    enc: spec_fn(T) -> Seq<u8>,
    ok: spec_fn(T) -> bool,
)
    requires
        delimited(enc, ok),
        forall|i: int| 0 <= i < xs.len() ==> ok(#[trigger] xs[i]),
        forall|i: int| 0 <= i < ys.len() ==> ok(#[trigger] ys[i]),
        concat(xs.map_values(enc)) == concat(ys.map_values(enc)),
    ensures
        xs == ys,
    decreases xs.len(),
{
    let ex = xs.map_values(enc);
    let ey = ys.map_values(enc);
    if xs.len() == 0 {
        if ys.len() > 0 {
            lemma_concat_front(ey);
            assert(ok(ys[0]));
            assert(ey[0] == enc(ys[0]));
            assert(concat(ex).len() == 0);
            assert(concat(ey).len() == ey[0].len() + concat(ey.drop_first()).len());
            assert(false);
        }
        assert(xs =~= ys);
    } else if ys.len() == 0 {
        lemma_concat_front(ex);
        assert(ok(xs[0]));
        assert(ex[0] == enc(xs[0]));
        assert(concat(ey).len() == 0);
        assert(concat(ex).len() == ex[0].len() + concat(ex.drop_first()).len());
        assert(false);
    } else {
        lemma_concat_front(ex);
        lemma_concat_front(ey);
        assert(ok(xs[0]) && ok(ys[0]));
        assert(ex[0] == enc(xs[0]) && ey[0] == enc(ys[0]));
        let rx = concat(ex.drop_first());
        let ry = concat(ey.drop_first());
        assert(enc(xs[0]) + rx == enc(ys[0]) + ry);
        assert(xs[0] == ys[0] && rx == ry);
        assert(ex.drop_first() =~= xs.drop_first().map_values(enc));
        assert(ey.drop_first() =~= ys.drop_first().map_values(enc));
        assert forall|i: int| 0 <= i < xs.drop_first().len() implies ok(
            #[trigger] xs.drop_first()[i],
        ) by {
            assert(xs.drop_first()[i] == xs[i + 1]);
        }
        assert forall|i: int| 0 <= i < ys.drop_first().len() implies ok(
            #[trigger] ys.drop_first()[i],
        ) by {
            assert(ys.drop_first()[i] == ys[i + 1]);
        }
        lemma_sequence_delimited(xs.drop_first(), ys.drop_first(), enc, ok);
        assert(xs =~= seq![xs[0]] + xs.drop_first());
        assert(ys =~= seq![ys[0]] + ys.drop_first());
    }
}

} // verus!
