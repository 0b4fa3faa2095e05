//! What the order of calls changes in a batch and what it does not:
//! operations are grouped by kind, and keep their order within a kind.

use crate::delimit::{lemma_list_delimits, lemma_uint_delimits};
use crate::note_abi::{
    delete_encoding, CreateView, Data, Envelope, ExtendView, NoteId, UpdateView,
};
use crate::rlp::{
    lemma_be_minimal_of_value_len, lemma_concat_push, lemma_list_payload, rlp_list, rlp_uint,
    Encode,
};
use vstd::prelude::*;

verus! {

/// Encoding is a function of the value: batches that hold the same
/// operations have the same bytes.
pub proof fn lemma_encoding_deterministic<'a>(a: Data<'a>, b: Data<'a>)
    requires
        a@ == b@,
    ensures
        a.encoding() == b.encoding(),
{
}

/// Operations of different kinds can be added in either order: the batch,
/// and so its bytes, are the same.
pub proof fn lemma_kinds_commute(
    e: Envelope,
    create: CreateView,
    update: UpdateView,
    delete: nat,
    extend: ExtendView,
)
    ensures
        e.with_create(create).with_update(update) == e.with_update(update).with_create(create),
        e.with_create(create).with_delete(delete) == e.with_delete(delete).with_create(create),
        e.with_create(create).with_extend(extend) == e.with_extend(extend).with_create(create),
        e.with_update(update).with_delete(delete) == e.with_delete(delete).with_update(update),
        e.with_update(update).with_extend(extend) == e.with_extend(extend).with_update(update),
        e.with_delete(delete).with_extend(extend) == e.with_extend(extend).with_delete(delete),
{
}

/// A removal, a request to store and a second removal encode as the request
/// to store followed by the two removals does: the kind of an operation,
/// not the moment it was added, decides where it stands.
pub proof fn lemma_grouping(e: Envelope, x: nat, y: CreateView, z: nat)
    ensures
        e.with_delete(x).with_create(y).with_delete(z).encoding() == e.with_create(y).with_delete(
            x,
        ).with_delete(z).encoding(),
{
    lemma_kinds_commute(e, y, arbitrary(), x, arbitrary());
}

/// A removal added to a batch adds its bytes after those of the removals
/// already there.
proof fn lemma_with_delete_payload(e: Envelope, id: nat)
    ensures
        e.with_delete(id).deletes_payload() == e.deletes_payload() + delete_encoding(id),
{
    let enc = |id: nat| delete_encoding(id);
    assert(e.with_delete(id).deletes.map_values(enc) =~= e.deletes.map_values(enc).push(
        delete_encoding(id),
    ));
    lemma_concat_push(e.deletes.map_values(enc), delete_encoding(id));
}

/// Removals of different notes, each followed by any bytes, give different
/// bytes.
proof fn lemma_delete_delimits(x: NoteId, after_x: Seq<u8>, z: NoteId, after_z: Seq<u8>)
    requires
        delete_encoding(x@) + after_x == delete_encoding(z@) + after_z,
    ensures
        x@ == z@,
{
    let none = Seq::<u8>::empty();
    lemma_be_minimal_of_value_len(x.0@);
    lemma_be_minimal_of_value_len(z.0@);
    lemma_list_delimits(rlp_uint(x@), after_x, rlp_uint(z@), after_z);
    assert(rlp_uint(x@) + none =~= rlp_uint(x@));
    assert(rlp_uint(z@) + none =~= rlp_uint(z@));
    lemma_uint_delimits(x@, none, z@, none);
}

/// Lists of equal length that stand between the same bytes, with the same
/// bytes as a whole, have the same payload.
proof fn lemma_inner_list(head: Seq<u8>, p: Seq<u8>, q: Seq<u8>, tail: Seq<u8>)
    requires
        p.len() == q.len(),
        head + rlp_list(p) + tail == head + rlp_list(q) + tail,
    ensures
        p == q,
{
    let lp = rlp_list(p);
    let lq = rlp_list(q);
    assert(lp.len() == lq.len());
    assert(lp =~= (head + lp + tail).subrange(head.len() as int, (head.len() + lp.len()) as int));
    assert(lq =~= (head + lq + tail).subrange(head.len() as int, (head.len() + lq.len()) as int));
    lemma_list_payload(p, q);
}

/// Within a kind the order counts: two removals of different notes encode
/// differently in one order than in the other.
pub proof fn lemma_order_within_kind(e: Envelope, x: NoteId, z: NoteId)
    requires
        x@ != z@,
    ensures
        e.with_delete(x@).with_delete(z@).encoding() != e.with_delete(z@).with_delete(
            x@,
        ).encoding(),
{
    let xz = e.with_delete(x@).with_delete(z@);
    let zx = e.with_delete(z@).with_delete(x@);
    let before = e.deletes_payload();
    let a = delete_encoding(x@);
    let b = delete_encoding(z@);
    lemma_with_delete_payload(e, x@);
    lemma_with_delete_payload(e.with_delete(x@), z@);
    lemma_with_delete_payload(e, z@);
    lemma_with_delete_payload(e.with_delete(z@), x@);
    let pxz = xz.deletes_payload();
    let pzx = zx.deletes_payload();
    assert(pxz == before + a + b);
    assert(pzx == before + b + a);
    if xz.encoding() == zx.encoding() {
        let head = e.creates_encoding() + e.updates_encoding();
        let tail = e.extends_encoding();
        let whole_xz = head + rlp_list(pxz) + tail;
        let whole_zx = head + rlp_list(pzx) + tail;
        assert(xz.encoding() == rlp_list(whole_xz));
        assert(zx.encoding() == rlp_list(whole_zx));
        lemma_list_payload(whole_xz, whole_zx);
        lemma_inner_list(head, pxz, pzx, tail);
        assert(a + b =~= pxz.subrange(before.len() as int, pxz.len() as int));
        assert(b + a =~= pzx.subrange(before.len() as int, pzx.len() as int));
        lemma_delete_delimits(x, b, z, a);
    }
}

} // verus!
