//! The operation envelope: the four kinds of operation on notes, the batch
//! that groups them by kind, and its wire encoding.

use crate::rlp::{
    be_value, concat, encode_list, lemma_be_minimal_strips_zeros, lemma_be_value_bound, pow256,
    put_bytes, put_list, put_u64, rlp_list, rlp_list_of, rlp_string, rlp_uint,
    without_leading_zeros, Encode,
};
use vstd::prelude::*;
use vstd::utf8::encode_utf8;

verus! {

/// The identifier of a note: an unsigned integer of 256 bits, held as its
/// 32 big-endian bytes.
#[derive(Clone, Copy, Debug)]
pub struct NoteId(pub [u8; 32]);

impl View for NoteId {
    type V = nat;

    /// The integer that the bytes denote.
    open spec fn view(&self) -> nat {
        be_value(self.0@)
    }
}

/// A number that a note identifier can hold: one under 2 to the power 256.
pub open spec fn is_note_id(n: nat) -> bool {
    n < pow256(32)
}

/// What an identifier denotes is a number that an identifier can hold.
pub proof fn lemma_note_id(id: NoteId)
    ensures
        is_note_id(id@),
{
    lemma_be_value_bound(id.0@);
}

/// An identifier is encoded as the byte string of its bytes without their
/// leading zeros: as nothing but a header where it is zero.
pub proof fn lemma_note_id_encoding(id: NoteId)
    ensures
        rlp_uint(id@) == rlp_string(without_leading_zeros(id.0@)),
{
    lemma_be_minimal_strips_zeros(id.0@);
}

/// Appends the encoding of the identifier `id` to `out`.
///
/// Calls `<alloy::primitives::U256 as alloy_rlp::Encodable>::encode` on the
/// integer made by `U256::from_be_bytes`. Trusted: that integer is the one
/// the bytes denote, the bytes appended are its encoding as an unsigned
/// integer, and nothing else in `out` changes.
#[verifier::external_body]
pub(crate) fn put_note_id(out: &mut Vec<u8>, id: &NoteId)
    ensures
        final(out)@ == old(out)@ + rlp_uint(id@),
{
    alloy_rlp::Encodable::encode(&alloy::primitives::U256::from_be_bytes(id.0), out)
}

/// A string-valued annotation as a mathematical value.
pub struct StringAnnotationView {
    pub key: Seq<char>,
    pub value: Seq<char>,
}

/// A numeric annotation as a mathematical value.
pub struct NumericAnnotationView {
    pub key: Seq<char>,
    pub value: u64,
}

impl StringAnnotationView {
    /// The list of the key and the value, both as byte strings in UTF-8.
    pub open spec fn encoding(self) -> Seq<u8> {
        rlp_list(rlp_string(encode_utf8(self.key)) + rlp_string(encode_utf8(self.value)))
    }
}

impl NumericAnnotationView {
    /// The list of the key, as a byte string in UTF-8, and the value, as an
    /// integer.
    pub open spec fn encoding(self) -> Seq<u8> {
        rlp_list(rlp_string(encode_utf8(self.key)) + rlp_uint(self.value as nat))
    }
}

/// The list of the encodings of string annotations, in order.
pub open spec fn string_annotations_encoding(items: Seq<StringAnnotationView>) -> Seq<u8> {
    rlp_list(concat(items.map_values(|a: StringAnnotationView| a.encoding())))
}

/// The list of the encodings of numeric annotations, in order.
pub open spec fn numeric_annotations_encoding(items: Seq<NumericAnnotationView>) -> Seq<u8> {
    rlp_list(concat(items.map_values(|a: NumericAnnotationView| a.encoding())))
}

/// A string-valued annotation attached to a note.
pub struct StringAnnotation<'a> {
    pub key: &'a str,
    pub value: &'a str,
}

/// A numeric annotation attached to a note.
pub struct NumericAnnotation<'a> {
    pub key: &'a str,
    pub value: u64,
}

impl<'a> View for StringAnnotation<'a> {
    type V = StringAnnotationView;

    open spec fn view(&self) -> StringAnnotationView {
        StringAnnotationView { key: self.key@, value: self.value@ }
    }
}

impl<'a> View for NumericAnnotation<'a> {
    type V = NumericAnnotationView;

    open spec fn view(&self) -> NumericAnnotationView {
        NumericAnnotationView { key: self.key@, value: self.value }
    }
}

impl<'a> Encode for StringAnnotation<'a> {
    open spec fn encoding(&self) -> Seq<u8> {
        self@.encoding()
    }

    fn encode(&self, out: &mut Vec<u8>) {
        let mut payload: Vec<u8> = Vec::new();
        put_bytes(&mut payload, self.key.as_bytes());
        put_bytes(&mut payload, self.value.as_bytes());
        put_list(out, &mut payload);
    }
}

impl<'a> Encode for NumericAnnotation<'a> {
    open spec fn encoding(&self) -> Seq<u8> {
        self@.encoding()
    }

    fn encode(&self, out: &mut Vec<u8>) {
        let mut payload: Vec<u8> = Vec::new();
        put_bytes(&mut payload, self.key.as_bytes());
        put_u64(&mut payload, self.value);
        put_list(out, &mut payload);
    }
}

/// The encoding of a vector of string annotations is that of their views.
proof fn lemma_string_annotations<'a>(items: Seq<StringAnnotation<'a>>)
    ensures
        rlp_list_of(items) == string_annotations_encoding(
            items.map_values(|a: StringAnnotation<'a>| a@),
        ),
{
    assert(items.map_values(|a: StringAnnotation<'a>| a.encoding()) =~= items.map_values(
        |a: StringAnnotation<'a>| a@,
    ).map_values(|a: StringAnnotationView| a.encoding()));
}

/// The encoding of a vector of numeric annotations is that of their views.
proof fn lemma_numeric_annotations<'a>(items: Seq<NumericAnnotation<'a>>)
    ensures
        rlp_list_of(items) == numeric_annotations_encoding(
            items.map_values(|a: NumericAnnotation<'a>| a@),
        ),
{
    assert(items.map_values(|a: NumericAnnotation<'a>| a.encoding()) =~= items.map_values(
        |a: NumericAnnotation<'a>| a@,
    ).map_values(|a: NumericAnnotationView| a.encoding()));
}

/// The request to store a new note, as a mathematical value.
pub struct CreateView {
    pub ttl: u64,
    pub payload: Seq<u8>,
    pub string_annotations: Seq<StringAnnotationView>,
    pub numeric_annotations: Seq<NumericAnnotationView>,
}

impl CreateView {
    /// The list of the time to live, the payload and the two lists of
    /// annotations.
    pub open spec fn encoding(self) -> Seq<u8> {
        rlp_list(
            rlp_uint(self.ttl as nat) + rlp_string(self.payload) + string_annotations_encoding(
                self.string_annotations,
            ) + numeric_annotations_encoding(self.numeric_annotations),
        )
    }
}

/// The request to store a new note with a time to live, a payload and
/// annotations. Annotations keep the order in which they were added; keys
/// may repeat.
pub struct Create<'a>(
    u64,
    &'a [u8],
    Vec<StringAnnotation<'a>>,
    Vec<NumericAnnotation<'a>>,
);

impl<'a> View for Create<'a> {
    type V = CreateView;

    closed spec fn view(&self) -> CreateView {
        CreateView {
            ttl: self.0,
            payload: self.1@,
            string_annotations: self.2@.map_values(|a: StringAnnotation<'a>| a@),
            numeric_annotations: self.3@.map_values(|a: NumericAnnotation<'a>| a@),
        }
    }
}

impl<'a> Create<'a> {
    /// A request with no annotations.
    pub fn new(ttl: u64, data: &'a [u8]) -> (res: Self)
        ensures
            res@ == (CreateView {
                ttl,
                payload: data@,
                string_annotations: Seq::empty(),
                numeric_annotations: Seq::empty(),
            }),
    {
        let res = Create(ttl, data, Vec::new(), Vec::new());
        assert(res@.string_annotations =~= Seq::empty());
        assert(res@.numeric_annotations =~= Seq::empty());
        res
    }

    /// Adds a string annotation after those already present.
    pub fn with_string_annotation(self, key: &'a str, value: &'a str) -> (res: Self)
        ensures
            res@ == (CreateView {
                string_annotations: self@.string_annotations.push(
                    StringAnnotationView { key: key@, value: value@ },
                ),
                ..self@
            }),
    {
        let mut res = self;
        res.2.push(StringAnnotation { key, value });
        assert(res@.string_annotations =~= self@.string_annotations.push(
            StringAnnotationView { key: key@, value: value@ },
        ));
        res
    }

    /// Adds a numeric annotation after those already present.
    pub fn with_numeric_annotation(self, key: &'a str, value: u64) -> (res: Self)
        ensures
            res@ == (CreateView {
                numeric_annotations: self@.numeric_annotations.push(
                    NumericAnnotationView { key: key@, value },
                ),
                ..self@
            }),
    {
        let mut res = self;
        res.3.push(NumericAnnotation { key, value });
        assert(res@.numeric_annotations =~= self@.numeric_annotations.push(
            NumericAnnotationView { key: key@, value },
        ));
        res
    }
}

impl<'a> Encode for Create<'a> {
    open spec fn encoding(&self) -> Seq<u8> {
        self@.encoding()
    }

    fn encode(&self, out: &mut Vec<u8>) {
        let mut payload: Vec<u8> = Vec::new();
        put_u64(&mut payload, self.0);
        put_bytes(&mut payload, self.1);
        encode_list(&self.2, &mut payload);
        encode_list(&self.3, &mut payload);
        proof {
            lemma_string_annotations(self.2@);
            lemma_numeric_annotations(self.3@);
        }
        put_list(out, &mut payload);
    }
}

/// The request to replace a stored note, as a mathematical value.
pub struct UpdateView {
    pub note_id: nat,
    pub ttl: u64,
    pub payload: Seq<u8>,
    pub string_annotations: Seq<StringAnnotationView>,
    pub numeric_annotations: Seq<NumericAnnotationView>,
}

impl UpdateView {
    /// The list of the identifier, the time to live, the payload and the
    /// two lists of annotations.
    pub open spec fn encoding(self) -> Seq<u8> {
        rlp_list(
            rlp_uint(self.note_id) + rlp_uint(self.ttl as nat) + rlp_string(self.payload)
                + string_annotations_encoding(self.string_annotations)
                + numeric_annotations_encoding(self.numeric_annotations),
        )
    }
}

/// The request to replace the time to live, the payload and the annotations
/// of the note `note_id`.
pub struct Update<'a>(
    NoteId,
    u64,
    &'a [u8],
    Vec<StringAnnotation<'a>>,
    Vec<NumericAnnotation<'a>>,
);

impl<'a> View for Update<'a> {
    type V = UpdateView;

    closed spec fn view(&self) -> UpdateView {
        UpdateView {
            note_id: self.0@,
            ttl: self.1,
            payload: self.2@,
            string_annotations: self.3@.map_values(|a: StringAnnotation<'a>| a@),
            numeric_annotations: self.4@.map_values(|a: NumericAnnotation<'a>| a@),
        }
    }
}

impl<'a> Update<'a> {
    /// A request with no annotations.
    pub fn new(note_id: NoteId, ttl: u64, data: &'a [u8]) -> (res: Self)
        ensures
            res@ == (UpdateView {
                note_id: note_id@,
                ttl,
                payload: data@,
                string_annotations: Seq::empty(),
                numeric_annotations: Seq::empty(),
            }),
    {
        let res = Update(note_id, ttl, data, Vec::new(), Vec::new());
        assert(res@.string_annotations =~= Seq::empty());
        assert(res@.numeric_annotations =~= Seq::empty());
        res
    }

    /// Adds a string annotation after those already present.
    pub fn with_string_annotation(self, key: &'a str, value: &'a str) -> (res: Self)
        ensures
            res@ == (UpdateView {
                string_annotations: self@.string_annotations.push(
                    StringAnnotationView { key: key@, value: value@ },
                ),
                ..self@
            }),
    {
        let mut res = self;
        res.3.push(StringAnnotation { key, value });
        assert(res@.string_annotations =~= self@.string_annotations.push(
            StringAnnotationView { key: key@, value: value@ },
        ));
        res
    }

    /// Adds a numeric annotation after those already present.
    pub fn with_numeric_annotation(self, key: &'a str, value: u64) -> (res: Self)
        ensures
            res@ == (UpdateView {
                numeric_annotations: self@.numeric_annotations.push(
                    NumericAnnotationView { key: key@, value },
                ),
                ..self@
            }),
    {
        let mut res = self;
        res.4.push(NumericAnnotation { key, value });
        assert(res@.numeric_annotations =~= self@.numeric_annotations.push(
            NumericAnnotationView { key: key@, value },
        ));
        res
    }
}

/// A request to replace names a note by a number that an identifier can
/// hold.
pub proof fn lemma_update_note_id<'a>(update: Update<'a>)
    ensures
        is_note_id(update@.note_id),
{
    lemma_note_id(update.0);
}

impl<'a> Encode for Update<'a> {
    open spec fn encoding(&self) -> Seq<u8> {
        self@.encoding()
    }

    fn encode(&self, out: &mut Vec<u8>) {
        let mut payload: Vec<u8> = Vec::new();
        put_note_id(&mut payload, &self.0);
        put_u64(&mut payload, self.1);
        put_bytes(&mut payload, self.2);
        encode_list(&self.3, &mut payload);
        encode_list(&self.4, &mut payload);
        proof {
            lemma_string_annotations(self.3@);
            lemma_numeric_annotations(self.4@);
        }
        put_list(out, &mut payload);
    }
}

/// The request to remove the note with the given identifier.
pub struct Delete(pub NoteId);

impl View for Delete {
    type V = nat;

    /// The identifier of the note to remove.
    open spec fn view(&self) -> nat {
        self.0@
    }
}

/// The encoding of the request to remove the note `note_id`: the list whose
/// one member is the identifier.
pub open spec fn delete_encoding(note_id: nat) -> Seq<u8> {
    rlp_list(rlp_uint(note_id))
}

impl Encode for Delete {
    open spec fn encoding(&self) -> Seq<u8> {
        delete_encoding(self@)
    }

    fn encode(&self, out: &mut Vec<u8>) {
        let mut payload: Vec<u8> = Vec::new();
        put_note_id(&mut payload, &self.0);
        put_list(out, &mut payload);
    }
}

/// The request to lengthen a note's time to live, as a mathematical value.
pub struct ExtendView {
    pub note_id: nat,
    pub extend_by: u64,
}

impl ExtendView {
    /// The list of the identifier and the extension.
    pub open spec fn encoding(self) -> Seq<u8> {
        rlp_list(rlp_uint(self.note_id) + rlp_uint(self.extend_by as nat))
    }
}

/// The request to lengthen the time to live of the note with the given
/// identifier by the given amount.
pub struct Extend(pub NoteId, pub u64);

impl View for Extend {
    type V = ExtendView;

    open spec fn view(&self) -> ExtendView {
        ExtendView { note_id: self.0@, extend_by: self.1 }
    }
}

impl Encode for Extend {
    open spec fn encoding(&self) -> Seq<u8> {
        self@.encoding()
    }

    fn encode(&self, out: &mut Vec<u8>) {
        let mut payload: Vec<u8> = Vec::new();
        put_note_id(&mut payload, &self.0);
        put_u64(&mut payload, self.1);
        put_list(out, &mut payload);
    }
}

/// A batch of operations as a mathematical value: one sequence for each
/// kind of operation. The order within a kind is the order in which the
/// operations were added; no order is kept between kinds.
pub struct Envelope {
    pub creates: Seq<CreateView>,
    pub updates: Seq<UpdateView>,
    pub deletes: Seq<nat>,
    pub extends: Seq<ExtendView>,
}

impl Envelope {
    /// The batch that holds no operation.
    pub open spec fn empty() -> Envelope {
        Envelope {
            creates: Seq::empty(),
            updates: Seq::empty(),
            deletes: Seq::empty(),
            extends: Seq::empty(),
        }
    }

    /// This batch with `create` after its other requests to store.
    pub open spec fn with_create(self, create: CreateView) -> Envelope {
        Envelope { creates: self.creates.push(create), ..self }
    }

    /// This batch with `update` after its other requests to replace.
    pub open spec fn with_update(self, update: UpdateView) -> Envelope {
        Envelope { updates: self.updates.push(update), ..self }
    }

    /// This batch with `note_id` after its other requests to remove.
    pub open spec fn with_delete(self, note_id: nat) -> Envelope {
        Envelope { deletes: self.deletes.push(note_id), ..self }
    }

    /// This batch with `extend` after its other requests to lengthen.
    pub open spec fn with_extend(self, extend: ExtendView) -> Envelope {
        Envelope { extends: self.extends.push(extend), ..self }
    }

    /// The list of the requests to store.
    pub open spec fn creates_encoding(self) -> Seq<u8> {
        rlp_list(concat(self.creates.map_values(|c: CreateView| c.encoding())))
    }

    /// The list of the requests to replace.
    pub open spec fn updates_encoding(self) -> Seq<u8> {
        rlp_list(concat(self.updates.map_values(|u: UpdateView| u.encoding())))
    }

    /// The encoded requests to remove, one after the other.
    pub open spec fn deletes_payload(self) -> Seq<u8> {
        concat(self.deletes.map_values(|id: nat| delete_encoding(id)))
    }

    /// The list of the requests to remove.
    pub open spec fn deletes_encoding(self) -> Seq<u8> {
        rlp_list(self.deletes_payload())
    }

    /// The list of the requests to lengthen.
    pub open spec fn extends_encoding(self) -> Seq<u8> {
        rlp_list(concat(self.extends.map_values(|e: ExtendView| e.encoding())))
    }

    /// The bytes that stand for the batch: the list of the four lists, in
    /// the order store, replace, remove, lengthen.
    pub open spec fn encoding(self) -> Seq<u8> {
        rlp_list(
            self.creates_encoding() + self.updates_encoding() + self.deletes_encoding()
                + self.extends_encoding(),
        )
    }
}

/// A batch of operations, grouped by kind.
pub struct Data<'a>(
    pub Vec<Create<'a>>,
    pub Vec<Update<'a>>,
    pub Vec<Delete>,
    pub Vec<Extend>,
);

impl<'a> View for Data<'a> {
    type V = Envelope;

    open spec fn view(&self) -> Envelope {
        Envelope {
            creates: self.0@.map_values(|c: Create<'a>| c@),
            updates: self.1@.map_values(|u: Update<'a>| u@),
            deletes: self.2@.map_values(|d: Delete| d@),
            extends: self.3@.map_values(|e: Extend| e@),
        }
    }
}

impl<'a> Default for Data<'a> {
    /// The batch that holds no operation.
    fn default() -> (res: Self)
        ensures
            res@ == Envelope::empty(),
    {
        let res = Data(Vec::new(), Vec::new(), Vec::new(), Vec::new());
        assert(res@.creates =~= Seq::empty());
        assert(res@.updates =~= Seq::empty());
        assert(res@.deletes =~= Seq::empty());
        assert(res@.extends =~= Seq::empty());
        res
    }
}

impl<'a> Data<'a> {
    /// Adds a request to store a note after those already in the batch.
    pub fn with_create(self, create: Create<'a>) -> (res: Self)
        ensures
            res@ == self@.with_create(create@),
    {
        let mut res = self;
        res.0.push(create);
        assert(res@.creates =~= self@.creates.push(create@));
        res
    }

    /// Adds a request to replace a note after those already in the batch.
    pub fn with_update(self, update: Update<'a>) -> (res: Self)
        ensures
            res@ == self@.with_update(update@),
    {
        let mut res = self;
        res.1.push(update);
        assert(res@.updates =~= self@.updates.push(update@));
        res
    }

    /// Adds a request to remove a note after those already in the batch.
    pub fn with_delete(self, delete: Delete) -> (res: Self)
        ensures
            res@ == self@.with_delete(delete@),
    {
        let mut res = self;
        res.2.push(delete);
        assert(res@.deletes =~= self@.deletes.push(delete@));
        res
    }

    /// Adds a request to lengthen a note's time to live after those already
    /// in the batch.
    pub fn with_extend(self, extend: Extend) -> (res: Self)
        ensures
            res@ == self@.with_extend(extend@),
    {
        let mut res = self;
        res.3.push(extend);
        assert(res@.extends =~= self@.extends.push(extend@));
        res
    }

    /// The bytes that stand for the batch on the wire.
    pub fn rlp(self) -> (buf: Vec<u8>)
        ensures
            buf@ == self@.encoding(),
    {
        let mut buf = Vec::new();
        self.encode(&mut buf);
        buf
    }
}

impl<'a> Encode for Data<'a> {
    open spec fn encoding(&self) -> Seq<u8> {
        self@.encoding()
    }

    fn encode(&self, out: &mut Vec<u8>) {
        let mut payload: Vec<u8> = Vec::new();
        encode_list(&self.0, &mut payload);
        encode_list(&self.1, &mut payload);
        encode_list(&self.2, &mut payload);
        encode_list(&self.3, &mut payload);
        proof {
            assert(self.0@.map_values(|c: Create<'a>| c.encoding()) =~= self@.creates.map_values(
                |c: CreateView| c.encoding(),
            ));
            assert(self.1@.map_values(|u: Update<'a>| u.encoding()) =~= self@.updates.map_values(
                |u: UpdateView| u.encoding(),
            ));
            assert(self.2@.map_values(|d: Delete| d.encoding()) =~= self@.deletes.map_values(
                |id: nat| delete_encoding(id),
            ));
            assert(self.3@.map_values(|e: Extend| e.encoding()) =~= self@.extends.map_values(
                |e: ExtendView| e.encoding(),
            ));
        }
        put_list(out, &mut payload);
    }
}

} // verus!
