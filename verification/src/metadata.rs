//! The metadata of a note, read from the annotations that the store
//! returns for it.

use crate::error::Error;
use vstd::prelude::*;

verus! {

/// The identifier of this application, the value of the `app-id`
/// annotation on every note it writes.
pub const APP_ID: &'static str = "f0cc72a1-62ba-48d7-bac4-e8a42da9da7e";

/// The version of the note protocol, the value of the version annotation on
/// every note written.
pub const PROTOCOL_VERSION: &'static str = "1.0.0";

/// Key of the string annotation that names the authoring application.
pub const KEY_APP_ID: &'static str = "app-id";

/// The prefix of the keys that belong to this application.
pub const DPASTE: &'static str = "io.golem-base.dpaste";

/// Key of the numeric annotation that holds the time of creation.
pub const KEY_CREATED_AT: &'static str = "io.golem-base.dpaste.created-at";

/// Key of the numeric annotation that says whether the payload is
/// encrypted.
pub const KEY_ENCRYPTED: &'static str = "io.golem-base.dpaste.encrypted";

/// Key of the string annotation that names the language of the content.
pub const KEY_LANGUAGE: &'static str = "io.golem-base.dpaste.language";

/// Key of the string annotation that holds the protocol version.
pub const KEY_VERSION: &'static str = "io.golem-base.dpaste.version";

/// An annotation as the store returns it.
#[derive(Debug)]
pub struct Annotation<T> {
    pub key: String,
    pub value: T,
}

/// What the store returns for one note: when it expires, who owns it, and
/// its annotations in the order of the store.
#[derive(Debug)]
pub struct RpcMetadata {
    pub expires_at_block: u64,
    pub owner: String,
    pub numeric_annotations: Vec<Annotation<u64>>,
    pub string_annotations: Vec<Annotation<String>>,
}

/// The metadata of a note.
#[derive(Debug)]
pub struct Metadata {
    pub app_id: String,
    pub created_at: i64,
    pub encrypted: bool,
    pub language: String,
    pub version: String,
}

/// The metadata of a note as a mathematical value.
pub struct MetadataView {
    pub app_id: Seq<char>,
    pub created_at: i64,
    pub encrypted: bool,
    pub language: Seq<char>,
    pub version: Seq<char>,
}

impl View for Metadata {
    type V = MetadataView;

    open spec fn view(&self) -> MetadataView {
        MetadataView {
            app_id: self.app_id@,
            created_at: self.created_at,
            encrypted: self.encrypted,
            language: self.language@,
            version: self.version@,
        }
    }
}

/// The value of the first annotation in `annotations` whose key is `key`;
/// `None` where no annotation has that key.
pub open spec fn first_value<T>(annotations: Seq<Annotation<T>>, key: Seq<char>) -> Option<T>
    decreases annotations.len(),
{
    if annotations.len() == 0 {
        None
    } else if annotations[0].key@ == key {
        Some(annotations[0].value)
    } else {
        first_value(annotations.drop_first(), key)
    }
}

/// The signed 64-bit number with the same bits as `value`.
pub open spec fn as_timestamp(value: u64) -> i64 {
    if value <= i64::MAX {
        value as i64
    } else {
        (value - 0x1_0000_0000_0000_0000) as i64
    }
}

/// The metadata that the annotations of a note hold, or the key of the
/// first well-known annotation that is absent, in the order: application,
/// time of creation, encryption flag, language, version. A note counts as
/// encrypted where its flag is 1.
pub open spec fn decoded(
    strings: Seq<Annotation<String>>,
    numbers: Seq<Annotation<u64>>,
) -> Result<MetadataView, Seq<char>> {
    if first_value(strings, KEY_APP_ID@) is None {
        Err(KEY_APP_ID@)
    } else if first_value(numbers, KEY_CREATED_AT@) is None {
        Err(KEY_CREATED_AT@)
    } else if first_value(numbers, KEY_ENCRYPTED@) is None {
        Err(KEY_ENCRYPTED@)
    } else if first_value(strings, KEY_LANGUAGE@) is None {
        Err(KEY_LANGUAGE@)
    } else if first_value(strings, KEY_VERSION@) is None {
        Err(KEY_VERSION@)
    } else {
        Ok(
            MetadataView {
                app_id: first_value(strings, KEY_APP_ID@)->0@,
                created_at: as_timestamp(first_value(numbers, KEY_CREATED_AT@)->0),
                encrypted: first_value(numbers, KEY_ENCRYPTED@)->0 == 1,
                language: first_value(strings, KEY_LANGUAGE@)->0@,
                version: first_value(strings, KEY_VERSION@)->0@,
            },
        )
    }
}

/// Where `first_value` finds `key`: at the first position that holds it.
pub proof fn lemma_first_value_is_first_match<T>(
    annotations: Seq<Annotation<T>>,
    key: Seq<char>,
    i: int,
)
    requires
        0 <= i < annotations.len(),
        annotations[i].key@ == key,
        forall|j: int| 0 <= j < i ==> annotations[j].key@ != key,
    ensures
        first_value(annotations, key) == Some(annotations[i].value),
    decreases i,
{
    if i > 0 {
        let rest = annotations.drop_first();
        assert(annotations[0].key@ != key);
        assert forall|j: int| 0 <= j < i - 1 implies rest[j].key@ != key by {
            assert(rest[j] == annotations[j + 1]);
        }
        lemma_first_value_is_first_match(rest, key, i - 1);
    }
}

/// Where no annotation has `key`, `first_value` finds nothing, and the
/// other way round.
pub proof fn lemma_first_value_none<T>(annotations: Seq<Annotation<T>>, key: Seq<char>)
    ensures
        first_value(annotations, key) is None <==> forall|j: int|
            0 <= j < annotations.len() ==> annotations[j].key@ != key,
    decreases annotations.len(),
{
    if annotations.len() > 0 {
        let rest = annotations.drop_first();
        lemma_first_value_none(rest, key);
        if annotations[0].key@ != key {
            if first_value(rest, key) is None {
                assert forall|j: int| 0 <= j < annotations.len() implies annotations[j].key@
                    != key by {
                    if j > 0 {
                        assert(rest[j - 1] == annotations[j]);
                    }
                }
            } else {
                let j = choose|j: int| 0 <= j < rest.len() && rest[j].key@ == key;
                assert(annotations[j + 1] == rest[j]);
            }
        }
    }
}

/// The value of the first string annotation whose key is `key`.
pub fn find_string(annotations: &Vec<Annotation<String>>, key: &str) -> (res: Option<String>)
    ensures
        res == first_value(annotations@, key@),
{
    let wanted = key.to_owned();
    let mut i: usize = 0;
    while i < annotations.len()
        invariant
            i <= annotations.len(),
            wanted@ == key@,
            forall|j: int| 0 <= j < i ==> annotations@[j].key@ != key@,
        decreases annotations.len() - i,
    {
        if annotations[i].key == wanted {
            proof {
                lemma_first_value_is_first_match(annotations@, key@, i as int);
            }
            return Some(annotations[i].value.clone());
        }
        i += 1;
    }
    proof {
        lemma_first_value_none(annotations@, key@);
    }
    None
}

/// The value of the first numeric annotation whose key is `key`.
pub fn find_number(annotations: &Vec<Annotation<u64>>, key: &str) -> (res: Option<u64>)
    ensures
        res == first_value(annotations@, key@),
{
    let wanted = key.to_owned();
    let mut i: usize = 0;
    while i < annotations.len()
        invariant
            i <= annotations.len(),
            wanted@ == key@,
            forall|j: int| 0 <= j < i ==> annotations@[j].key@ != key@,
        decreases annotations.len() - i,
    {
        if annotations[i].key == wanted {
            proof {
                lemma_first_value_is_first_match(annotations@, key@, i as int);
            }
            return Some(annotations[i].value);
        }
        i += 1;
    }
    proof {
        lemma_first_value_none(annotations@, key@);
    }
    None
}

/// Reads a creation time as the store holds it, an unsigned number, as a
/// signed one with the same bits.
pub fn timestamp_of(value: u64) -> (res: i64)
    ensures
        res == as_timestamp(value),
{
    if value <= 0x7fff_ffff_ffff_ffff {
        value as i64
    } else {
        ((value - 0x8000_0000_0000_0000) as i64) + i64::MIN
    }
}

impl RpcMetadata {
    /// Reads the metadata of the note from its annotations.
    ///
    /// Fails with the key of the first well-known annotation that is
    /// absent. Annotations with other keys, and all but the first with a
    /// well-known key, play no part.
    pub fn try_into(self) -> (res: Result<Metadata, Error>)
        ensures
            match res {
                Ok(metadata) => decoded(self.string_annotations@, self.numeric_annotations@)
                    matches Ok(m) && m == metadata@,
                Err(e) => e matches Error::MetadataKeyMissing(key) && decoded(
                    self.string_annotations@,
                    self.numeric_annotations@,
                ) matches Err(k) && k == key@,
            },
    {
        let app_id = match find_string(&self.string_annotations, KEY_APP_ID) {
            Some(value) => value,
            None => { return Err(Error::MetadataKeyMissing(KEY_APP_ID.to_owned())); },
        };
        let created_at = match find_number(&self.numeric_annotations, KEY_CREATED_AT) {
            Some(value) => timestamp_of(value),
            None => { return Err(Error::MetadataKeyMissing(KEY_CREATED_AT.to_owned())); },
        };
        let encrypted = match find_number(&self.numeric_annotations, KEY_ENCRYPTED) {
            Some(value) => value,
            None => { return Err(Error::MetadataKeyMissing(KEY_ENCRYPTED.to_owned())); },
        };
        let language = match find_string(&self.string_annotations, KEY_LANGUAGE) {
            Some(value) => value,
            None => { return Err(Error::MetadataKeyMissing(KEY_LANGUAGE.to_owned())); },
        };
        let version = match find_string(&self.string_annotations, KEY_VERSION) {
            Some(value) => value,
            None => { return Err(Error::MetadataKeyMissing(KEY_VERSION.to_owned())); },
        };
        Ok(Metadata { app_id, created_at, encrypted: encrypted == 1, language, version })
    }
}

} // verus!
