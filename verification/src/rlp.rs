//! The recursive length-prefixed wire encoding: byte strings, unsigned
//! integers and lists, stated as functions on byte sequences, together with
//! the calls that write single items into a buffer.

use alloy_rlp::Encodable;
use vstd::prelude::*;

verus! {

/// The digits of `n` in base 256, most significant first, with no leading
/// zero digit. Zero has no digits.
pub open spec fn be_minimal(n: nat) -> Seq<u8>
    decreases n,
{
    if n == 0 {
        Seq::empty()
    } else {
        be_minimal(n / 256).push((n % 256) as u8)
    }
}

/// The number that the big-endian digits `digits` denote.
pub open spec fn be_value(digits: Seq<u8>) -> nat
    decreases digits.len(),
{
    if digits.len() == 0 {
        0
    } else {
        be_value(digits.drop_last()) * 256 + digits.last() as nat
    }
}

/// 256 to the power `k`.
pub open spec fn pow256(k: nat) -> nat
    decreases k,
{
    if k == 0 {
        1
    } else {
        256 * pow256((k - 1) as nat)
    }
}

/// The prefix that announces a payload of `len` bytes, for a list or for a
/// byte string. Payloads under 56 bytes get one byte that holds the length;
/// longer ones get a byte that holds the number of length digits, and then
/// the digits.
pub open spec fn rlp_header(list: bool, len: nat) -> Seq<u8> {
    let short: int = if list { 0xc0 } else { 0x80 };
    if len < 56 {
        seq![(short + len) as u8]
    } else {
        seq![(short + 55 + be_minimal(len).len()) as u8] + be_minimal(len)
    }
}

/// The encoding of a byte string: a single byte under 0x80 stands for
/// itself, anything else follows its header.
pub open spec fn rlp_string(bytes: Seq<u8>) -> Seq<u8> {
    if bytes.len() == 1 && bytes[0] < 0x80 {
        bytes
    } else {
        rlp_header(false, bytes.len()) + bytes
    }
}

/// The encoding of an unsigned integer: its minimal big-endian digits, as a
/// byte string.
pub open spec fn rlp_uint(n: nat) -> Seq<u8> {
    rlp_string(be_minimal(n))
}

/// The encoding of a list whose encoded members, one after the other, are
/// `payload`.
pub open spec fn rlp_list(payload: Seq<u8>) -> Seq<u8> {
    rlp_header(true, payload.len()) + payload
}

/// The members of `parts`, one after the other.
pub open spec fn concat(parts: Seq<Seq<u8>>) -> Seq<u8>
    decreases parts.len(),
{
    if parts.len() == 0 {
        Seq::empty()
    } else {
        concat(parts.drop_last()) + parts.last()
    }
}

/// The minimal digits of a number denote that number.
pub proof fn lemma_be_value_of_minimal(n: nat)
    ensures
        be_value(be_minimal(n)) == n,
    decreases n,
{
    if n != 0 {
        lemma_be_value_of_minimal(n / 256);
        let digits = be_minimal(n / 256).push((n % 256) as u8);
        assert(digits.drop_last() =~= be_minimal(n / 256));
    }
}

/// What `k` digits denote is under 256 to the power `k`.
pub proof fn lemma_be_value_bound(digits: Seq<u8>)
    ensures
        be_value(digits) < pow256(digits.len()),
    decreases digits.len(),
{
    if digits.len() != 0 {
        lemma_be_value_bound(digits.drop_last());
    }
}

/// The minimal digits of the number that `digits` denote are no more than
/// `digits` are.
pub proof fn lemma_be_minimal_of_value_len(digits: Seq<u8>)
    ensures
        be_minimal(be_value(digits)).len() <= digits.len(),
    decreases digits.len(),
{
    if digits.len() != 0 {
        lemma_be_minimal_of_value_len(digits.drop_last());
        let n = be_value(digits);
        assert(n / 256 == be_value(digits.drop_last()));
    }
}

/// `digits` from its first byte that is not zero on.
pub open spec fn without_leading_zeros(digits: Seq<u8>) -> Seq<u8>
    decreases digits.len(),
{
    if digits.len() > 0 && digits[0] == 0 {
        without_leading_zeros(digits.drop_first())
    } else {
        digits
    }
}

/// The minimal digits of a number are minimal: there is none for zero, and
/// the first digit of any other number is not zero.
pub proof fn lemma_be_minimal_first_digit(n: nat)
    ensures
        n == 0 <==> be_minimal(n).len() == 0,
        n > 0 ==> be_minimal(n)[0] != 0,
    decreases n,
{
    if n > 0 {
        lemma_be_minimal_first_digit(n / 256);
        if n / 256 > 0 {
            assert(be_minimal(n)[0] == be_minimal(n / 256)[0]);
        }
    }
}

/// A byte added at the end stays at the end when leading zeros go, unless
/// it is itself a leading zero.
proof fn lemma_without_leading_zeros_push(digits: Seq<u8>, last: u8)
    ensures
        without_leading_zeros(digits.push(last)) == if without_leading_zeros(digits).len() > 0 {
            without_leading_zeros(digits).push(last)
        } else if last == 0 {
            Seq::<u8>::empty()
        } else {
            seq![last]
        },
    decreases digits.len(),
{
    let whole = digits.push(last);
    if digits.len() > 0 && digits[0] == 0 {
        lemma_without_leading_zeros_push(digits.drop_first(), last);
        assert(whole.drop_first() =~= digits.drop_first().push(last));
        assert(whole[0] == 0);
    } else if digits.len() == 0 {
        assert(whole =~= seq![last]);
        if last == 0 {
            assert(whole.drop_first() =~= Seq::<u8>::empty());
            assert(without_leading_zeros(whole.drop_first()) =~= Seq::<u8>::empty());
        }
    } else {
        assert(whole[0] == digits[0]);
    }
}

/// The minimal digits of a number given by big-endian bytes are those
/// bytes without their leading zeros.
pub proof fn lemma_be_minimal_strips_zeros(digits: Seq<u8>)
    ensures
        be_minimal(be_value(digits)) == without_leading_zeros(digits),
    decreases digits.len(),
{
    if digits.len() > 0 {
        let init = digits.drop_last();
        let n = be_value(digits);
        lemma_be_minimal_strips_zeros(init);
        lemma_without_leading_zeros_push(init, digits.last());
        lemma_be_minimal_first_digit(be_value(init));
        assert(digits =~= init.push(digits.last()));
        assert(n / 256 == be_value(init));
        assert(n % 256 == digits.last());
        if be_value(init) == 0 && digits.last() != 0 {
            assert(be_minimal(n) =~= seq![digits.last()]);
        }
    }
}

/// A list tells its payload: lists with the same bytes have the same
/// payload.
pub proof fn lemma_list_payload(p: Seq<u8>, q: Seq<u8>)
    requires
        p.len() == q.len(),
        rlp_list(p) == rlp_list(q),
    ensures
        p == q,
{
    let h = rlp_header(true, p.len());
    assert(p =~= (h + p).subrange(h.len() as int, (h + p).len() as int));
    assert(q =~= (h + q).subrange(h.len() as int, (h + q).len() as int));
}

/// Adding a member at the end adds its bytes at the end.
pub proof fn lemma_concat_push(parts: Seq<Seq<u8>>, last: Seq<u8>)
    ensures
        concat(parts.push(last)) == concat(parts) + last,
{
    assert(parts.push(last).drop_last() =~= parts);
}

/// A value with a wire encoding.
pub trait Encode {
    /// The bytes that stand for the value.
    spec fn encoding(&self) -> Seq<u8>;

    /// Appends the encoding of the value to `out`.
    fn encode(&self, out: &mut Vec<u8>)
        ensures
            final(out)@ == old(out)@ + self.encoding(),
    ;
}

/// The encoding of a sequence of values: the list of their encodings, in
/// order.
pub open spec fn rlp_list_of<T: Encode>(items: Seq<T>) -> Seq<u8> {
    rlp_list(concat(items.map_values(|t: T| t.encoding())))
}

/// Appends the header of a payload of `payload_length` bytes to `out`.
///
/// Calls `alloy_rlp::Header::encode`. Trusted: the bytes appended are
/// `rlp_header(list, payload_length)`, and nothing else in `out` changes.
#[verifier::external_body]
pub(crate) fn put_header(out: &mut Vec<u8>, list: bool, payload_length: usize)
    ensures
        final(out)@ == old(out)@ + rlp_header(list, payload_length as nat),
{
    alloy_rlp::Header { list, payload_length }.encode(out)
}

/// Appends the encoding of the byte string `bytes` to `out`.
///
/// Calls `<[u8] as alloy_rlp::Encodable>::encode`. Trusted: the bytes
/// appended are `rlp_string(bytes)`, and nothing else in `out` changes.
#[verifier::external_body]
pub(crate) fn put_bytes(out: &mut Vec<u8>, bytes: &[u8])
    ensures
        final(out)@ == old(out)@ + rlp_string(bytes@),
{
    bytes.encode(out)
}

/// Appends the encoding of the integer `value` to `out`.
///
/// Calls `<u64 as alloy_rlp::Encodable>::encode`. Trusted: the bytes
/// appended are `rlp_uint(value)`, and nothing else in `out` changes.
#[verifier::external_body]
pub(crate) fn put_u64(out: &mut Vec<u8>, value: u64)
    ensures
        final(out)@ == old(out)@ + rlp_uint(value as nat),
{
    value.encode(out)
}

/// Appends the list whose encoded members are `payload` to `out`, and
/// leaves `payload` empty.
pub fn put_list(out: &mut Vec<u8>, payload: &mut Vec<u8>)
    ensures
        final(out)@ == old(out)@ + rlp_list(old(payload)@),
        final(payload)@.len() == 0,
{
    put_header(out, true, payload.len());
    out.append(payload);
}

/// Appends the encoding of `items`, as a list, to `out`.
pub fn encode_list<T: Encode>(items: &Vec<T>, out: &mut Vec<u8>)
    ensures
        final(out)@ == old(out)@ + rlp_list_of(items@),
{
    let mut payload: Vec<u8> = Vec::new();
    let ghost encodings = items@.map_values(|t: T| t.encoding());
    let mut i: usize = 0;
    while i < items.len()
        invariant
            i <= items.len(),
            encodings == items@.map_values(|t: T| t.encoding()),
            payload@ == concat(encodings.take(i as int)),
        decreases items.len() - i,
    {
        items[i].encode(&mut payload);
        proof {
            let next = encodings.take(i + 1);
            assert(next.drop_last() =~= encodings.take(i as int));
            assert(next.last() == items@[i as int].encoding());
        }
        i += 1;
    }
    assert(encodings.take(i as int) =~= encodings);
    put_list(out, &mut payload);
}

} // verus!
