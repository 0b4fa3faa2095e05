//! Bytes stand for one batch only: batches with the same encoding hold the
//! same operations. This is what lets the store, which decodes the same
//! format, recover exactly what was submitted.

use crate::delimit::{
    delimited, fits, lemma_digits_bound, lemma_list_delimits, lemma_sequence_delimited,
    lemma_string_delimits, lemma_uint_delimits,
};
use crate::note_abi::{
    delete_encoding, is_note_id, lemma_note_id, lemma_update_note_id,
    numeric_annotations_encoding,
    string_annotations_encoding, CreateView, Data, Envelope, ExtendView, NumericAnnotationView,
    StringAnnotationView, UpdateView,
};
use crate::rlp::{be_minimal, concat, pow256, rlp_list, rlp_string, rlp_uint};
use vstd::prelude::*;
use vstd::utf8::{encode_utf8, encode_utf8_decode_utf8};

verus! {

/// A batch that can be submitted: its identifiers are note identifiers and
/// its encoding is short enough for its length to be announced.
pub open spec fn submittable(e: Envelope) -> bool {
    &&& fits(e.encoding().len())
    &&& forall|i: int| 0 <= i < e.updates.len() ==> is_note_id(#[trigger] e.updates[i].note_id)
    &&& forall|i: int| 0 <= i < e.deletes.len() ==> is_note_id(#[trigger] e.deletes[i])
    &&& forall|i: int| 0 <= i < e.extends.len() ==> is_note_id(#[trigger] e.extends[i].note_id)
}

/// No member is longer than all members together.
proof fn lemma_member_len(parts: Seq<Seq<u8>>, i: int)
    requires
        0 <= i < parts.len(),
    ensures
        parts[i].len() <= concat(parts).len(),
    decreases parts.len(),
{
    if i < parts.len() - 1 {
        lemma_member_len(parts.drop_last(), i);
    }
}

/// An integer of 64 bits has at most 8 digits, and a note identifier at
/// most 32.
proof fn lemma_integer_digits(value: u64, id: nat)
    ensures
        fits(be_minimal(value as nat).len()),
        is_note_id(id) ==> fits(be_minimal(id).len()),
{
    reveal_with_fuel(pow256, 9);
    assert(pow256(8) == 0x1_0000_0000_0000_0000);
    lemma_digits_bound(value as nat, 8);
    if is_note_id(id) {
        lemma_digits_bound(id, 32);
    }
}

/// Text is told by its bytes in UTF-8.
proof fn lemma_text_of_bytes(a: Seq<char>, b: Seq<char>)
    requires
        encode_utf8(a) == encode_utf8(b),
    ensures
        a == b,
{
    encode_utf8_decode_utf8(a);
    encode_utf8_decode_utf8(b);
}

spec fn string_annotation_ok(a: StringAnnotationView) -> bool {
    fits(a.encoding().len())
}

spec fn numeric_annotation_ok(a: NumericAnnotationView) -> bool {
    fits(a.encoding().len())
}

spec fn create_ok(c: CreateView) -> bool {
    fits(c.encoding().len())
}

spec fn update_ok(u: UpdateView) -> bool {
    fits(u.encoding().len()) && is_note_id(u.note_id)
}

spec fn extend_ok(e: ExtendView) -> bool {
    fits(e.encoding().len()) && is_note_id(e.note_id)
}

proof fn lemma_string_annotation(
    a: StringAnnotationView,
    x: Seq<u8>,
    b: StringAnnotationView,
    y: Seq<u8>,
)
    requires
        string_annotation_ok(a),
        string_annotation_ok(b),
        a.encoding() + x == b.encoding() + y,
    ensures
        a == b,
        x == y,
{
    let ka = rlp_string(encode_utf8(a.key));
    let va = rlp_string(encode_utf8(a.value));
    let kb = rlp_string(encode_utf8(b.key));
    let vb = rlp_string(encode_utf8(b.value));
    lemma_list_delimits(ka + va, x, kb + vb, y);
    lemma_string_delimits(encode_utf8(a.key), va, encode_utf8(b.key), vb);
    assert(va + Seq::<u8>::empty() =~= va);
    assert(vb + Seq::<u8>::empty() =~= vb);
    lemma_string_delimits(
        encode_utf8(a.value),
        Seq::<u8>::empty(),
        encode_utf8(b.value),
        Seq::<u8>::empty(),
    );
    lemma_text_of_bytes(a.key, b.key);
    lemma_text_of_bytes(a.value, b.value);
}

proof fn lemma_numeric_annotation(
    a: NumericAnnotationView,
    x: Seq<u8>,
    b: NumericAnnotationView,
    y: Seq<u8>,
)
    requires
        numeric_annotation_ok(a),
        numeric_annotation_ok(b),
        a.encoding() + x == b.encoding() + y,
    ensures
        a == b,
        x == y,
{
    let ka = rlp_string(encode_utf8(a.key));
    let va = rlp_uint(a.value as nat);
    let kb = rlp_string(encode_utf8(b.key));
    let vb = rlp_uint(b.value as nat);
    lemma_list_delimits(ka + va, x, kb + vb, y);
    lemma_string_delimits(encode_utf8(a.key), va, encode_utf8(b.key), vb);
    assert(va + Seq::<u8>::empty() =~= va);
    assert(vb + Seq::<u8>::empty() =~= vb);
    lemma_integer_digits(a.value, 0);
    lemma_integer_digits(b.value, 0);
    lemma_uint_delimits(a.value as nat, Seq::<u8>::empty(), b.value as nat, Seq::<u8>::empty());
    lemma_text_of_bytes(a.key, b.key);
}

/// Lists of string annotations, each followed by any bytes, with the same
/// bytes hold the same annotations and are followed by the same bytes.
proof fn lemma_string_annotations(
    s1: Seq<StringAnnotationView>,
    x: Seq<u8>,
    s2: Seq<StringAnnotationView>,
    y: Seq<u8>,
)
    requires
        fits(string_annotations_encoding(s1).len()),
        fits(string_annotations_encoding(s2).len()),
        string_annotations_encoding(s1) + x == string_annotations_encoding(s2) + y,
    ensures
        s1 == s2,
        x == y,
{
    let enc = |a: StringAnnotationView| a.encoding();
    let ok = |a: StringAnnotationView| string_annotation_ok(a);
    let e1 = s1.map_values(enc);
    let e2 = s2.map_values(enc);
    lemma_list_delimits(concat(e1), x, concat(e2), y);
    assert forall|a: StringAnnotationView, b: StringAnnotationView, p: Seq<u8>, q: Seq<u8>|
        #![trigger enc(a) + p, enc(b) + q]
        ok(a) && ok(b) && enc(a) + p == enc(b) + q implies a == b && p == q by {
        lemma_string_annotation(a, p, b, q);
    }
    assert(delimited(enc, ok));
    assert forall|i: int| 0 <= i < s1.len() implies ok(#[trigger] s1[i]) by {
        lemma_member_len(e1, i);
    }
    assert forall|i: int| 0 <= i < s2.len() implies ok(#[trigger] s2[i]) by {
        lemma_member_len(e2, i);
    }
    lemma_sequence_delimited(s1, s2, enc, ok);
}

/// Lists of numeric annotations, each followed by any bytes, with the same
/// bytes hold the same annotations and are followed by the same bytes.
proof fn lemma_numeric_annotations(
    s1: Seq<NumericAnnotationView>,
    x: Seq<u8>,
    s2: Seq<NumericAnnotationView>,
    y: Seq<u8>,
)
    requires
        fits(numeric_annotations_encoding(s1).len()),
        fits(numeric_annotations_encoding(s2).len()),
        numeric_annotations_encoding(s1) + x == numeric_annotations_encoding(s2) + y,
    ensures
        s1 == s2,
        x == y,
{
    let enc = |a: NumericAnnotationView| a.encoding();
    let ok = |a: NumericAnnotationView| numeric_annotation_ok(a);
    let e1 = s1.map_values(enc);
    let e2 = s2.map_values(enc);
    lemma_list_delimits(concat(e1), x, concat(e2), y);
    assert forall|a: NumericAnnotationView, b: NumericAnnotationView, p: Seq<u8>, q: Seq<u8>|
        #![trigger enc(a) + p, enc(b) + q]
        ok(a) && ok(b) && enc(a) + p == enc(b) + q implies a == b && p == q by {
        lemma_numeric_annotation(a, p, b, q);
    }
    assert(delimited(enc, ok));
    assert forall|i: int| 0 <= i < s1.len() implies ok(#[trigger] s1[i]) by {
        lemma_member_len(e1, i);
    }
    assert forall|i: int| 0 <= i < s2.len() implies ok(#[trigger] s2[i]) by {
        lemma_member_len(e2, i);
    }
    lemma_sequence_delimited(s1, s2, enc, ok);
}

/// What a request to store and a request to replace have in common: the
/// time to live, the payload and the two lists of annotations, encoded one
/// after the other.
spec fn note_body(
    ttl: u64,
    payload: Seq<u8>,
    strings: Seq<StringAnnotationView>,
    numbers: Seq<NumericAnnotationView>,
) -> Seq<u8> {
    rlp_uint(ttl as nat) + (rlp_string(payload) + (string_annotations_encoding(strings)
        + numeric_annotations_encoding(numbers)))
}

proof fn lemma_note_body(
    ttl1: u64,
    payload1: Seq<u8>,
    strings1: Seq<StringAnnotationView>,
    numbers1: Seq<NumericAnnotationView>,
    ttl2: u64,
    payload2: Seq<u8>,
    strings2: Seq<StringAnnotationView>,
    numbers2: Seq<NumericAnnotationView>,
)
    requires
        fits(note_body(ttl1, payload1, strings1, numbers1).len()),
        note_body(ttl1, payload1, strings1, numbers1) == note_body(
            ttl2,
            payload2,
            strings2,
            numbers2,
        ),
    ensures
        ttl1 == ttl2,
        payload1 == payload2,
        strings1 == strings2,
        numbers1 == numbers2,
{
    let none = Seq::<u8>::empty();
    let pa = rlp_string(payload1);
    let s1 = string_annotations_encoding(strings1);
    let n1 = numeric_annotations_encoding(numbers1);
    let pb = rlp_string(payload2);
    let s2 = string_annotations_encoding(strings2);
    let n2 = numeric_annotations_encoding(numbers2);
    lemma_integer_digits(ttl1, 0);
    lemma_integer_digits(ttl2, 0);
    lemma_uint_delimits(ttl1 as nat, pa + (s1 + n1), ttl2 as nat, pb + (s2 + n2));
    lemma_string_delimits(payload1, s1 + n1, payload2, s2 + n2);
    lemma_string_annotations(strings1, n1, strings2, n2);
    assert(n1 + none =~= n1);
    assert(n2 + none =~= n2);
    lemma_numeric_annotations(numbers1, none, numbers2, none);
}

proof fn lemma_create_shape(a: CreateView)
    ensures
        a.encoding() == rlp_list(
            note_body(a.ttl, a.payload, a.string_annotations, a.numeric_annotations),
        ),
{
    let t = rlp_uint(a.ttl as nat);
    let p = rlp_string(a.payload);
    let s = string_annotations_encoding(a.string_annotations);
    let n = numeric_annotations_encoding(a.numeric_annotations);
    assert(t + p + s + n =~= t + (p + (s + n)));
}

proof fn lemma_update_shape(a: UpdateView)
    ensures
        a.encoding() == rlp_list(
            rlp_uint(a.note_id) + note_body(
                a.ttl,
                a.payload,
                a.string_annotations,
                a.numeric_annotations,
            ),
        ),
{
    let i = rlp_uint(a.note_id);
    let t = rlp_uint(a.ttl as nat);
    let p = rlp_string(a.payload);
    let s = string_annotations_encoding(a.string_annotations);
    let n = numeric_annotations_encoding(a.numeric_annotations);
    assert(i + t + p + s + n =~= i + (t + (p + (s + n))));
}

proof fn lemma_create(a: CreateView, x: Seq<u8>, b: CreateView, y: Seq<u8>)
    requires
        create_ok(a),
        create_ok(b),
        a.encoding() + x == b.encoding() + y,
    ensures
        a == b,
        x == y,
{
    let body_a = note_body(a.ttl, a.payload, a.string_annotations, a.numeric_annotations);
    let body_b = note_body(b.ttl, b.payload, b.string_annotations, b.numeric_annotations);
    lemma_create_shape(a);
    lemma_create_shape(b);
    lemma_list_delimits(body_a, x, body_b, y);
    lemma_note_body(
        a.ttl,
        a.payload,
        a.string_annotations,
        a.numeric_annotations,
        b.ttl,
        b.payload,
        b.string_annotations,
        b.numeric_annotations,
    );
}

proof fn lemma_update(a: UpdateView, x: Seq<u8>, b: UpdateView, y: Seq<u8>)
    requires
        update_ok(a),
        update_ok(b),
        a.encoding() + x == b.encoding() + y,
    ensures
        a == b,
        x == y,
{
    let body_a = note_body(a.ttl, a.payload, a.string_annotations, a.numeric_annotations);
    let body_b = note_body(b.ttl, b.payload, b.string_annotations, b.numeric_annotations);
    lemma_update_shape(a);
    lemma_update_shape(b);
    lemma_list_delimits(rlp_uint(a.note_id) + body_a, x, rlp_uint(b.note_id) + body_b, y);
    lemma_integer_digits(0, a.note_id);
    lemma_integer_digits(0, b.note_id);
    lemma_uint_delimits(a.note_id, body_a, b.note_id, body_b);
    lemma_note_body(
        a.ttl,
        a.payload,
        a.string_annotations,
        a.numeric_annotations,
        b.ttl,
        b.payload,
        b.string_annotations,
        b.numeric_annotations,
    );
}

proof fn lemma_extend(a: ExtendView, x: Seq<u8>, b: ExtendView, y: Seq<u8>)
    requires
        extend_ok(a),
        extend_ok(b),
        a.encoding() + x == b.encoding() + y,
    ensures
        a == b,
        x == y,
{
    let none = Seq::<u8>::empty();
    let ia = rlp_uint(a.note_id);
    let va = rlp_uint(a.extend_by as nat);
    let ib = rlp_uint(b.note_id);
    let vb = rlp_uint(b.extend_by as nat);
    lemma_list_delimits(ia + va, x, ib + vb, y);
    lemma_integer_digits(a.extend_by, a.note_id);
    lemma_integer_digits(b.extend_by, b.note_id);
    lemma_uint_delimits(a.note_id, va, b.note_id, vb);
    assert(va + none =~= va);
    assert(vb + none =~= vb);
    lemma_uint_delimits(a.extend_by as nat, none, b.extend_by as nat, none);
}

/// Lists of requests to store, each followed by any bytes, with the same
/// bytes hold the same requests and are followed by the same bytes.
proof fn lemma_creates(c1: Seq<CreateView>, x: Seq<u8>, c2: Seq<CreateView>, y: Seq<u8>)
    requires
        fits(rlp_list(concat(c1.map_values(|c: CreateView| c.encoding()))).len()),
        fits(rlp_list(concat(c2.map_values(|c: CreateView| c.encoding()))).len()),
        rlp_list(concat(c1.map_values(|c: CreateView| c.encoding()))) + x == rlp_list(
            concat(c2.map_values(|c: CreateView| c.encoding())),
        ) + y,
    ensures
        c1 == c2,
        x == y,
{
    let enc = |c: CreateView| c.encoding();
    let ok = |c: CreateView| create_ok(c);
    let e1 = c1.map_values(enc);
    let e2 = c2.map_values(enc);
    lemma_list_delimits(concat(e1), x, concat(e2), y);
    assert forall|a: CreateView, b: CreateView, p: Seq<u8>, q: Seq<u8>|
        #![trigger enc(a) + p, enc(b) + q]
        ok(a) && ok(b) && enc(a) + p == enc(b) + q implies a == b && p == q by {
        lemma_create(a, p, b, q);
    }
    assert(delimited(enc, ok));
    assert forall|i: int| 0 <= i < c1.len() implies ok(#[trigger] c1[i]) by {
        lemma_member_len(e1, i);
    }
    assert forall|i: int| 0 <= i < c2.len() implies ok(#[trigger] c2[i]) by {
        lemma_member_len(e2, i);
    }
    lemma_sequence_delimited(c1, c2, enc, ok);
}

/// Lists of requests to replace, each followed by any bytes, with the same
/// bytes hold the same requests and are followed by the same bytes.
proof fn lemma_updates(u1: Seq<UpdateView>, x: Seq<u8>, u2: Seq<UpdateView>, y: Seq<u8>)
    requires
        fits(rlp_list(concat(u1.map_values(|u: UpdateView| u.encoding()))).len()),
        fits(rlp_list(concat(u2.map_values(|u: UpdateView| u.encoding()))).len()),
        forall|i: int| 0 <= i < u1.len() ==> is_note_id(#[trigger] u1[i].note_id),
        forall|i: int| 0 <= i < u2.len() ==> is_note_id(#[trigger] u2[i].note_id),
        rlp_list(concat(u1.map_values(|u: UpdateView| u.encoding()))) + x == rlp_list(
            concat(u2.map_values(|u: UpdateView| u.encoding())),
        ) + y,
    ensures
        u1 == u2,
        x == y,
{
    let enc = |u: UpdateView| u.encoding();
    let ok = |u: UpdateView| update_ok(u);
    let e1 = u1.map_values(enc);
    let e2 = u2.map_values(enc);
    lemma_list_delimits(concat(e1), x, concat(e2), y);
    assert forall|a: UpdateView, b: UpdateView, p: Seq<u8>, q: Seq<u8>|
        #![trigger enc(a) + p, enc(b) + q]
        ok(a) && ok(b) && enc(a) + p == enc(b) + q implies a == b && p == q by {
        lemma_update(a, p, b, q);
    }
    assert(delimited(enc, ok));
    assert forall|i: int| 0 <= i < u1.len() implies ok(#[trigger] u1[i]) by {
        lemma_member_len(e1, i);
        assert(is_note_id(u1[i].note_id));
    }
    assert forall|i: int| 0 <= i < u2.len() implies ok(#[trigger] u2[i]) by {
        lemma_member_len(e2, i);
        assert(is_note_id(u2[i].note_id));
    }
    lemma_sequence_delimited(u1, u2, enc, ok);
}

proof fn lemma_delete(a: nat, x: Seq<u8>, b: nat, y: Seq<u8>)
    requires
        is_note_id(a),
        is_note_id(b),
        delete_encoding(a) + x == delete_encoding(b) + y,
    ensures
        a == b,
        x == y,
{
    let none = Seq::<u8>::empty();
    lemma_digits_bound(a, 32);
    lemma_digits_bound(b, 32);
    lemma_list_delimits(rlp_uint(a), x, rlp_uint(b), y);
    assert(rlp_uint(a) + none =~= rlp_uint(a));
    assert(rlp_uint(b) + none =~= rlp_uint(b));
    lemma_uint_delimits(a, none, b, none);
}

/// Lists of requests to remove, each followed by any bytes, with the same
/// bytes hold the same identifiers and are followed by the same bytes.
proof fn lemma_deletes(d1: Seq<nat>, x: Seq<u8>, d2: Seq<nat>, y: Seq<u8>)
    requires
        fits(rlp_list(concat(d1.map_values(|id: nat| delete_encoding(id)))).len()),
        fits(rlp_list(concat(d2.map_values(|id: nat| delete_encoding(id)))).len()),
        forall|i: int| 0 <= i < d1.len() ==> is_note_id(#[trigger] d1[i]),
        forall|i: int| 0 <= i < d2.len() ==> is_note_id(#[trigger] d2[i]),
        rlp_list(concat(d1.map_values(|id: nat| delete_encoding(id)))) + x == rlp_list(
            concat(d2.map_values(|id: nat| delete_encoding(id))),
        ) + y,
    ensures
        d1 == d2,
        x == y,
{
    let enc = |id: nat| delete_encoding(id);
    let ok = |id: nat| is_note_id(id);
    let e1 = d1.map_values(enc);
    let e2 = d2.map_values(enc);
    lemma_list_delimits(concat(e1), x, concat(e2), y);
    assert forall|a: nat, b: nat, p: Seq<u8>, q: Seq<u8>|
        #![trigger enc(a) + p, enc(b) + q]
        ok(a) && ok(b) && enc(a) + p == enc(b) + q implies a == b && p == q by {
        lemma_delete(a, p, b, q);
    }
    assert(delimited(enc, ok));
    lemma_sequence_delimited(d1, d2, enc, ok);
}

/// Lists of requests to lengthen, each followed by any bytes, with the
/// same bytes hold the same requests and are followed by the same bytes.
proof fn lemma_extends(x1: Seq<ExtendView>, x: Seq<u8>, x2: Seq<ExtendView>, y: Seq<u8>)
    requires
        fits(rlp_list(concat(x1.map_values(|e: ExtendView| e.encoding()))).len()),
        fits(rlp_list(concat(x2.map_values(|e: ExtendView| e.encoding()))).len()),
        forall|i: int| 0 <= i < x1.len() ==> is_note_id(#[trigger] x1[i].note_id),
        forall|i: int| 0 <= i < x2.len() ==> is_note_id(#[trigger] x2[i].note_id),
        rlp_list(concat(x1.map_values(|e: ExtendView| e.encoding()))) + x == rlp_list(
            concat(x2.map_values(|e: ExtendView| e.encoding())),
        ) + y,
    ensures
        x1 == x2,
        x == y,
{
    let enc = |e: ExtendView| e.encoding();
    let ok = |e: ExtendView| extend_ok(e);
    let e1 = x1.map_values(enc);
    let e2 = x2.map_values(enc);
    lemma_list_delimits(concat(e1), x, concat(e2), y);
    assert forall|a: ExtendView, b: ExtendView, p: Seq<u8>, q: Seq<u8>|
        #![trigger enc(a) + p, enc(b) + q]
        ok(a) && ok(b) && enc(a) + p == enc(b) + q implies a == b && p == q by {
        lemma_extend(a, p, b, q);
    }
    assert(delimited(enc, ok));
    assert forall|i: int| 0 <= i < x1.len() implies ok(#[trigger] x1[i]) by {
        lemma_member_len(e1, i);
        assert(is_note_id(x1[i].note_id));
    }
    assert forall|i: int| 0 <= i < x2.len() implies ok(#[trigger] x2[i]) by {
        lemma_member_len(e2, i);
        assert(is_note_id(x2[i].note_id));
    }
    lemma_sequence_delimited(x1, x2, enc, ok);
}

/// The four lists of a batch, one after the other.
spec fn four_lists(e: Envelope) -> Seq<u8> {
    e.creates_encoding() + (e.updates_encoding() + (e.deletes_encoding() + e.extends_encoding()))
}

proof fn lemma_envelope_shape(e: Envelope)
    ensures
        e.encoding() == rlp_list(four_lists(e)),
        four_lists(e).len() <= e.encoding().len(),
{
    let c = e.creates_encoding();
    let u = e.updates_encoding();
    let d = e.deletes_encoding();
    let x = e.extends_encoding();
    assert(c + u + d + x =~= c + (u + (d + x)));
}

proof fn lemma_four_lists(a: Envelope, b: Envelope)
    requires
        submittable(a),
        submittable(b),
        fits(four_lists(a).len()),
        four_lists(a) == four_lists(b),
    ensures
        a == b,
{
    let none = Seq::<u8>::empty();
    let ua = a.updates_encoding();
    let da = a.deletes_encoding();
    let xa = a.extends_encoding();
    let ub = b.updates_encoding();
    let db = b.deletes_encoding();
    let xb = b.extends_encoding();
    assert(a.creates == b.creates && ua + (da + xa) == ub + (db + xb)) by {
        lemma_creates(a.creates, ua + (da + xa), b.creates, ub + (db + xb));
    }
    assert(a.updates == b.updates && da + xa == db + xb) by {
        lemma_updates(a.updates, da + xa, b.updates, db + xb);
    }
    assert(a.deletes == b.deletes && xa == xb) by {
        lemma_deletes(a.deletes, xa, b.deletes, xb);
    }
    assert(a.extends == b.extends) by {
        assert(xa + none =~= xa);
        assert(xb + none =~= xb);
        lemma_extends(a.extends, none, b.extends, none);
    }
}

/// Bytes stand for one batch only: batches that can be submitted and have
/// the same encoding hold the same operations, kind by kind and in the
/// same order.
pub proof fn lemma_encoding_injective(a: Envelope, b: Envelope)
    requires
        submittable(a),
        submittable(b),
        a.encoding() == b.encoding(),
    ensures
        a == b,
{
    let none = Seq::<u8>::empty();
    lemma_envelope_shape(a);
    lemma_envelope_shape(b);
    assert(rlp_list(four_lists(a)) + none =~= rlp_list(four_lists(a)));
    assert(rlp_list(four_lists(b)) + none =~= rlp_list(four_lists(b)));
    lemma_list_delimits(four_lists(a), none, four_lists(b), none);
    lemma_four_lists(a, b);
}

/// A batch built in memory can be submitted as soon as its encoding is
/// short enough.
pub proof fn lemma_data_submittable<'a>(data: Data<'a>)
    requires
        fits(data@.encoding().len()),
    ensures
        submittable(data@),
{
    assert forall|i: int| 0 <= i < data@.updates.len() implies is_note_id(
        #[trigger] data@.updates[i].note_id,
    ) by {
        lemma_update_note_id(data.1@[i]);
    }
    assert forall|i: int| 0 <= i < data@.deletes.len() implies is_note_id(
        #[trigger] data@.deletes[i],
    ) by {
        lemma_note_id(data.2@[i].0);
    }
    assert forall|i: int| 0 <= i < data@.extends.len() implies is_note_id(
        #[trigger] data@.extends[i].note_id,
    ) by {
        lemma_note_id(data.3@[i].0);
    }
}

/// Batches built in memory whose bytes are the same, and few enough to be
/// held in memory, hold the same operations.
pub proof fn lemma_rlp_injective<'a>(a: Data<'a>, b: Data<'a>)
    requires
        a@.encoding().len() <= usize::MAX,
        a@.encoding() == b@.encoding(),
    ensures
        a@ == b@,
{
    lemma_data_submittable(a);
    lemma_data_submittable(b);
    lemma_encoding_injective(a@, b@);
}

} // verus!
