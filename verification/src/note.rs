//! The operations on notes: what each one submits to the store, and what a
//! reader gets from what the store returns.

use crate::encryption::{
    decrypt, encrypt, opened, sealed, IV_LEN, MAX_PLAINTEXT_LEN, TAG_LEN,
};
use crate::metadata::{
    as_timestamp, decoded, lemma_first_value_is_first_match, Annotation, Metadata, MetadataView,
    APP_ID, KEY_APP_ID, KEY_CREATED_AT, KEY_ENCRYPTED, KEY_LANGUAGE, KEY_VERSION,
    PROTOCOL_VERSION,
};
use crate::note_abi::{
    Create, CreateView, Data, Delete, Envelope, Extend, ExtendView, NoteId,
    NumericAnnotationView, StringAnnotationView, Update, UpdateView,
};
use vstd::prelude::*;
use vstd::utf8::{decode_utf8, encode_utf8, valid_utf8};

verus! {

/// The bytes that standard base64, with padding, stands for; `None` where
/// the input is no such text.
pub uninterp spec fn base64_decoded(input: Seq<u8>) -> Option<Seq<u8>>;

/// The text that bytes read as UTF-8 give, with a replacement character in
/// place of each part that is no UTF-8.
pub uninterp spec fn lossy_text(bytes: Seq<u8>) -> Seq<char>;

/// The text that a reader sees for the bytes of a note: the text they
/// encode where they are UTF-8, else that text with replacement characters.
pub open spec fn text_of(bytes: Seq<u8>) -> Seq<char> {
    if valid_utf8(bytes) {
        decode_utf8(bytes)
    } else {
        lossy_text(bytes)
    }
}

/// Decodes standard base64 with padding.
///
/// Calls `data_encoding::BASE64.decode`, which panics on an input longer
/// than an eighth of the address space. Trusted: the result is a function
/// of the input alone.
#[verifier::external_body]
fn base64_decode(input: &[u8]) -> (output: Option<Vec<u8>>)
    requires
        input@.len() <= usize::MAX / 8,
    ensures
        match output {
            Some(bytes) => base64_decoded(input@) == Some(bytes@),
            None => base64_decoded(input@) is None,
        },
{
    data_encoding::BASE64.decode(input).ok()
}

/// Reads bytes as text.
///
/// Calls `String::from_utf8_lossy`. Trusted: the result is a function of
/// the bytes alone, and bytes that are UTF-8 give the text they encode.
#[verifier::external_body]
fn utf8_lossy(bytes: &[u8]) -> (text: String)
    ensures
        text@ == lossy_text(bytes@),
        valid_utf8(bytes@) ==> text@ == decode_utf8(bytes@),
{
    String::from_utf8_lossy(bytes).into_owned()
}

/// Reads the clock: seconds since the start of 1970.
///
/// Calls `chrono::Local::now` and `DateTime::timestamp`. Nothing is
/// claimed of the number. The call panics where the clock stands before
/// 1970.
#[verifier::external_body]
fn unix_time() -> (seconds: i64) {
    chrono::Local::now().timestamp()
}

/// The unsigned number with the same bits as `seconds`, which is how a
/// time of creation is stored.
pub fn created_at_value(seconds: i64) -> (value: u64)
    ensures
        as_timestamp(value) == seconds,
{
    if seconds >= 0 {
        seconds as u64
    } else {
        ((seconds - i64::MIN) as u64) + 0x8000_0000_0000_0000
    }
}

/// The string annotations of a note written in `language`.
pub open spec fn note_string_annotations(language: Seq<char>) -> Seq<StringAnnotationView> {
    seq![
        StringAnnotationView { key: KEY_APP_ID@, value: APP_ID@ },
        StringAnnotationView { key: KEY_LANGUAGE@, value: language },
        StringAnnotationView { key: KEY_VERSION@, value: PROTOCOL_VERSION@ },
    ]
}

/// The numeric annotations of a note created at `created_at`: the time, and
/// 1 for an encrypted payload or 0 for a plain one.
pub open spec fn note_numeric_annotations(created_at: u64, encrypted: bool) -> Seq<
    NumericAnnotationView,
> {
    seq![
        NumericAnnotationView { key: KEY_CREATED_AT@, value: created_at },
        NumericAnnotationView { key: KEY_ENCRYPTED@, value: if encrypted { 1u64 } else { 0u64 } },
    ]
}

/// String annotations as the store returns them that hold, in order, the
/// keys and values of `written`.
pub open spec fn holds_strings(
    stored: Seq<Annotation<String>>,
    written: Seq<StringAnnotationView>,
) -> bool {
    &&& stored.len() == written.len()
    &&& forall|i: int|
        0 <= i < stored.len() ==> stored[i].key@ == written[i].key && stored[i].value@
            == written[i].value
}

/// Numeric annotations as the store returns them that hold, in order, the
/// keys and values of `written`.
pub open spec fn holds_numbers(
    stored: Seq<Annotation<u64>>,
    written: Seq<NumericAnnotationView>,
) -> bool {
    &&& stored.len() == written.len()
    &&& forall|i: int|
        0 <= i < stored.len() ==> stored[i].key@ == written[i].key && stored[i].value
            == written[i].value
}

/// What is written is what is read: the metadata decoded from the
/// annotations of a note, as this library writes them, names this
/// application and protocol version and gives back the language, the time
/// of creation and the encryption flag.
pub proof fn lemma_written_metadata_is_read(
    strings: Seq<Annotation<String>>,
    numbers: Seq<Annotation<u64>>,
    language: Seq<char>,
    created_at: u64,
    encrypted: bool,
)
    requires
        holds_strings(strings, note_string_annotations(language)),
        holds_numbers(numbers, note_numeric_annotations(created_at, encrypted)),
    ensures
        decoded(strings, numbers) == Ok::<MetadataView, Seq<char>>(
            MetadataView {
                app_id: APP_ID@,
                created_at: as_timestamp(created_at),
                encrypted,
                language,
                version: PROTOCOL_VERSION@,
            },
        ),
{
    reveal_strlit("app-id");
    reveal_strlit("io.golem-base.dpaste.created-at");
    reveal_strlit("io.golem-base.dpaste.encrypted");
    reveal_strlit("io.golem-base.dpaste.language");
    reveal_strlit("io.golem-base.dpaste.version");
    let written_strings = note_string_annotations(language);
    let written_numbers = note_numeric_annotations(created_at, encrypted);
    assert(strings[0].key@ == written_strings[0].key);
    assert(strings[1].key@ == written_strings[1].key);
    assert(strings[2].key@ == written_strings[2].key);
    assert(numbers[0].key@ == written_numbers[0].key);
    assert(numbers[1].key@ == written_numbers[1].key);
    assert(KEY_APP_ID@.len() == 6);
    assert(KEY_CREATED_AT@.len() == 31);
    assert(KEY_ENCRYPTED@.len() == 30);
    assert(KEY_LANGUAGE@.len() == 29);
    assert(KEY_VERSION@.len() == 28);
    lemma_first_value_is_first_match(strings, KEY_APP_ID@, 0);
    lemma_first_value_is_first_match(strings, KEY_LANGUAGE@, 1);
    lemma_first_value_is_first_match(strings, KEY_VERSION@, 2);
    lemma_first_value_is_first_match(numbers, KEY_CREATED_AT@, 0);
    lemma_first_value_is_first_match(numbers, KEY_ENCRYPTED@, 1);
}

/// The batch that stores one new note.
pub open spec fn add_envelope(
    ttl: u64,
    payload: Seq<u8>,
    language: Seq<char>,
    created_at: u64,
    encrypted: bool,
) -> Envelope {
    Envelope::empty().with_create(
        CreateView {
            ttl,
            payload,
            string_annotations: note_string_annotations(language),
            numeric_annotations: note_numeric_annotations(created_at, encrypted),
        },
    )
}

/// The batch that replaces one note.
pub open spec fn update_envelope(
    note_id: nat,
    ttl: u64,
    payload: Seq<u8>,
    language: Seq<char>,
    created_at: u64,
    encrypted: bool,
) -> Envelope {
    Envelope::empty().with_update(
        UpdateView {
            note_id,
            ttl,
            payload,
            string_annotations: note_string_annotations(language),
            numeric_annotations: note_numeric_annotations(created_at, encrypted),
        },
    )
}

/// What is stored for a note under an optional password: the note itself,
/// or its encryption under the password with some initialization vector,
/// which is longer than the note by the vector and the tag.
pub open spec fn is_payload_of(payload: Seq<u8>, note: Seq<u8>, password: Option<Seq<u8>>) -> bool {
    match password {
        None => payload == note,
        Some(p) => {
            &&& payload.len() == IV_LEN + note.len() + TAG_LEN
            &&& opened(payload, p) == Some(note)
            &&& exists|iv: Seq<u8>| iv.len() == IV_LEN && payload == #[trigger] sealed(note, p, iv)
        },
    }
}

/// The view of an optional password.
pub open spec fn password_view(password: Option<&[u8]>) -> Option<Seq<u8>> {
    match password {
        None => None,
        Some(p) => Some(p@),
    }
}

/// The payload to store for `note`: the note itself where there is no
/// password, else its encryption under the password.
pub fn note_payload(note: &[u8], password: Option<&[u8]>) -> (payload: Vec<u8>)
    requires
        password is Some ==> note@.len() <= MAX_PLAINTEXT_LEN,
    ensures
        is_payload_of(payload@, note@, password_view(password)),
{
    match password {
        Some(p) => encrypt(note, p),
        None => {
            let mut payload: Vec<u8> = Vec::new();
            payload.extend_from_slice(note);
            assert(payload@ =~= note@);
            payload
        },
    }
}

/// The bytes to submit to store a new note with the given payload.
pub fn add_note_input(
    ttl: u64,
    payload: &[u8],
    language: &str,
    created_at: u64,
    encrypted: bool,
) -> (buf: Vec<u8>)
    ensures
        buf@ == add_envelope(ttl, payload@, language@, created_at, encrypted).encoding(),
{
    let create = Create::new(ttl, payload).with_string_annotation(
        KEY_APP_ID,
        APP_ID,
    ).with_string_annotation(KEY_LANGUAGE, language).with_string_annotation(
        KEY_VERSION,
        PROTOCOL_VERSION,
    ).with_numeric_annotation(KEY_CREATED_AT, created_at).with_numeric_annotation(
        KEY_ENCRYPTED,
        if encrypted { 1 } else { 0 },
    );
    proof {
        assert(create@.string_annotations =~= note_string_annotations(language@));
        assert(create@.numeric_annotations =~= note_numeric_annotations(created_at, encrypted));
    }
    Data::default().with_create(create).rlp()
}

/// The bytes to submit to replace the note `note_id` with the given
/// payload.
pub fn update_note_input(
    note_id: NoteId,
    ttl: u64,
    payload: &[u8],
    language: &str,
    created_at: u64,
    encrypted: bool,
) -> (buf: Vec<u8>)
    ensures
        buf@ == update_envelope(
            note_id@,
            ttl,
            payload@,
            language@,
            created_at,
            encrypted,
        ).encoding(),
{
    let update = Update::new(note_id, ttl, payload).with_string_annotation(
        KEY_APP_ID,
        APP_ID,
    ).with_string_annotation(KEY_LANGUAGE, language).with_string_annotation(
        KEY_VERSION,
        PROTOCOL_VERSION,
    ).with_numeric_annotation(KEY_CREATED_AT, created_at).with_numeric_annotation(
        KEY_ENCRYPTED,
        if encrypted { 1 } else { 0 },
    );
    proof {
        assert(update@.string_annotations =~= note_string_annotations(language@));
        assert(update@.numeric_annotations =~= note_numeric_annotations(created_at, encrypted));
    }
    Data::default().with_update(update).rlp()
}

/// The bytes to submit to store `note` as a new note, created now and
/// encrypted where a password is given.
///
/// Whatever the clock and the initialization vector were, the bytes encode
/// the batch of one request to store, whose payload is the note or its
/// encryption and whose annotations say which.
pub fn add_note_data(
    note: &[u8],
    password: Option<&[u8]>,
    ttl: u64,
    language: &str,
) -> (buf: Vec<u8>)
    requires
        password is Some ==> note@.len() <= MAX_PLAINTEXT_LEN,
    ensures
        exists|payload: Seq<u8>, created_at: u64|
            is_payload_of(payload, note@, password_view(password))
                && buf@ == #[trigger] add_envelope(
                ttl,
                payload,
                language@,
                created_at,
                password is Some,
            ).encoding(),
{
    let payload = note_payload(note, password);
    let created_at = created_at_value(unix_time());
    let buf = add_note_input(ttl, payload.as_slice(), language, created_at, password.is_some());
    assert(buf@ == add_envelope(
        ttl,
        payload@,
        language@,
        created_at,
        password is Some,
    ).encoding());
    buf
}

/// The bytes to submit to replace the note `note_id` by `note`, stamped
/// now and encrypted where a password is given.
///
/// Whatever the clock and the initialization vector were, the bytes encode
/// the batch of one request to replace, whose payload is the note or its
/// encryption and whose annotations say which.
pub fn update_note_data(
    note_id: NoteId,
    note: &[u8],
    password: Option<&[u8]>,
    ttl: u64,
    language: &str,
) -> (buf: Vec<u8>)
    requires
        password is Some ==> note@.len() <= MAX_PLAINTEXT_LEN,
    ensures
        exists|payload: Seq<u8>, created_at: u64|
            is_payload_of(payload, note@, password_view(password))
                && buf@ == #[trigger] update_envelope(
                note_id@,
                ttl,
                payload,
                language@,
                created_at,
                password is Some,
            ).encoding(),
{
    let payload = note_payload(note, password);
    let created_at = created_at_value(unix_time());
    let buf = update_note_input(
        note_id,
        ttl,
        payload.as_slice(),
        language,
        created_at,
        password.is_some(),
    );
    assert(buf@ == update_envelope(
        note_id@,
        ttl,
        payload@,
        language@,
        created_at,
        password is Some,
    ).encoding());
    buf
}

/// The bytes to submit to remove the note `note_id`.
pub fn delete_note_data(note_id: NoteId) -> (buf: Vec<u8>)
    ensures
        buf@ == Envelope::empty().with_delete(note_id@).encoding(),
{
    Data::default().with_delete(Delete(note_id)).rlp()
}

/// The bytes to submit to lengthen the time to live of the note `note_id`
/// by `extend_by`.
pub fn extend_note_data(note_id: NoteId, extend_by: u64) -> (buf: Vec<u8>)
    ensures
        buf@ == Envelope::empty().with_extend(
            ExtendView { note_id: note_id@, extend_by },
        ).encoding(),
{
    Data::default().with_extend(Extend(note_id, extend_by)).rlp()
}

/// What a reader gets of a note.
#[derive(Debug)]
pub enum NoteContent {
    /// The text of the note.
    Text(String),
    /// The note is encrypted and no password was given.
    PasswordRequired,
    /// The note is encrypted and does not decrypt under the password given.
    DecryptionError,
}

/// What a reader gets of a note, as a mathematical value.
pub enum NoteContentView {
    Text(Seq<char>),
    PasswordRequired,
    DecryptionError,
}

impl View for NoteContent {
    type V = NoteContentView;

    open spec fn view(&self) -> NoteContentView {
        match self {
            NoteContent::Text(text) => NoteContentView::Text(text@),
            NoteContent::PasswordRequired => NoteContentView::PasswordRequired,
            NoteContent::DecryptionError => NoteContentView::DecryptionError,
        }
    }
}

/// What a reader with an optional password gets of a stored payload: the
/// payload as text where the note is plain; of an encrypted note, the
/// decrypted payload as text, or the reason why there is none.
pub open spec fn content_of(
    encrypted: bool,
    stored: Seq<u8>,
    password: Option<Seq<u8>>,
) -> NoteContentView {
    if !encrypted {
        NoteContentView::Text(text_of(stored))
    } else {
        match password {
            None => NoteContentView::PasswordRequired,
            Some(p) => match opened(stored, p) {
                Some(plaintext) => NoteContentView::Text(text_of(plaintext)),
                None => NoteContentView::DecryptionError,
            },
        }
    }
}

/// Reads a stored payload: as it is where the note is plain, decrypted
/// under the password where the note is encrypted.
pub fn note_content(
    metadata: &Metadata,
    stored: &[u8],
    password: Option<&[u8]>,
) -> (content: NoteContent)
    ensures
        content@ == content_of(metadata.encrypted, stored@, password_view(password)),
        metadata.encrypted && password is Some && stored@.len() < IV_LEN + TAG_LEN ==> content
            is DecryptionError,
{
    if !metadata.encrypted {
        NoteContent::Text(utf8_lossy(stored))
    } else {
        match password {
            None => NoteContent::PasswordRequired,
            Some(p) => match decrypt(stored, p) {
                Ok(plaintext) => NoteContent::Text(utf8_lossy(plaintext.as_slice())),
                Err(_) => NoteContent::DecryptionError,
            },
        }
    }
}

/// Reads a payload as the store returns it, in base64: `None` where it is
/// no base64, else what `note_content` gives for the decoded bytes.
pub fn view_note_content(
    metadata: &Metadata,
    encoded: &str,
    password: Option<&[u8]>,
) -> (content: Option<NoteContent>)
    requires
        encode_utf8(encoded@).len() <= usize::MAX / 8,
    ensures
        match content {
            Some(c) => base64_decoded(encode_utf8(encoded@)) matches Some(stored) && c@
                == content_of(metadata.encrypted, stored, password_view(password)) && (
            metadata.encrypted && password is Some && stored.len() < IV_LEN + TAG_LEN ==> c
                is DecryptionError),
            None => base64_decoded(encode_utf8(encoded@)) is None,
        },
{
    match base64_decode(encoded.as_bytes()) {
        Some(stored) => Some(note_content(metadata, stored.as_slice(), password)),
        None => None,
    }
}

} // verus!
