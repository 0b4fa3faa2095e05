use dpaste::error::Error;
use dpaste::metadata::{
    find_number, find_string, timestamp_of, Annotation, Metadata, RpcMetadata, KEY_APP_ID,
    KEY_CREATED_AT, KEY_ENCRYPTED, KEY_LANGUAGE, KEY_VERSION,
};

fn s(key: &str, value: &str) -> Annotation<String> {
    Annotation { key: key.to_string(), value: value.to_string() }
}

fn n(key: &str, value: u64) -> Annotation<u64> {
    Annotation { key: key.to_string(), value }
}

fn rpc(strings: Vec<Annotation<String>>, numbers: Vec<Annotation<u64>>) -> RpcMetadata {
    RpcMetadata {
        expires_at_block: 42,
        owner: "0x0000000000000000000000000000000000000001".to_string(),
        numeric_annotations: numbers,
        string_annotations: strings,
    }
}

fn full_strings() -> Vec<Annotation<String>> {
    vec![s(KEY_APP_ID, "X"), s(KEY_LANGUAGE, "rust"), s(KEY_VERSION, "1.0.0")]
}

fn full_numbers() -> Vec<Annotation<u64>> {
    vec![n(KEY_CREATED_AT, 1000), n(KEY_ENCRYPTED, 0)]
}

fn missing(res: Result<Metadata, Error>) -> String {
    match res {
        Err(Error::MetadataKeyMissing(key)) => key,
        other => panic!("expected a missing key, got {other:?}"),
    }
}

#[test]
fn well_known_keys_have_the_documented_names() {
    assert_eq!(KEY_APP_ID, "app-id");
    assert_eq!(KEY_CREATED_AT, "io.golem-base.dpaste.created-at");
    assert_eq!(KEY_ENCRYPTED, "io.golem-base.dpaste.encrypted");
    assert_eq!(KEY_LANGUAGE, "io.golem-base.dpaste.language");
    assert_eq!(KEY_VERSION, "io.golem-base.dpaste.version");
}

#[test]
fn metadata_is_read_from_the_well_known_annotations() {
    let metadata = rpc(full_strings(), full_numbers()).try_into().unwrap();
    assert_eq!(metadata.app_id, "X");
    assert_eq!(metadata.created_at, 1000);
    assert!(!metadata.encrypted);
    assert_eq!(metadata.language, "rust");
    assert_eq!(metadata.version, "1.0.0");
}

#[test]
fn missing_version_is_reported() {
    let strings = vec![s(KEY_APP_ID, "X"), s(KEY_LANGUAGE, "rust")];
    assert_eq!(missing(rpc(strings, full_numbers()).try_into()), KEY_VERSION);
}

#[test]
fn missing_application_is_reported() {
    let strings = vec![s(KEY_LANGUAGE, "rust"), s(KEY_VERSION, "1.0.0")];
    assert_eq!(missing(rpc(strings, full_numbers()).try_into()), KEY_APP_ID);
}

#[test]
fn missing_language_is_reported() {
    let strings = vec![s(KEY_APP_ID, "X"), s(KEY_VERSION, "1.0.0")];
    assert_eq!(missing(rpc(strings, full_numbers()).try_into()), KEY_LANGUAGE);
}

#[test]
fn missing_creation_time_is_reported() {
    let numbers = vec![n(KEY_ENCRYPTED, 1)];
    assert_eq!(missing(rpc(full_strings(), numbers).try_into()), KEY_CREATED_AT);
}

#[test]
fn missing_encryption_flag_is_reported() {
    let numbers = vec![n(KEY_CREATED_AT, 1)];
    assert_eq!(missing(rpc(full_strings(), numbers).try_into()), KEY_ENCRYPTED);
}

#[test]
fn first_missing_key_in_lookup_order_is_reported() {
    assert_eq!(missing(rpc(vec![], vec![]).try_into()), KEY_APP_ID);
    assert_eq!(missing(rpc(vec![s(KEY_APP_ID, "X")], vec![]).try_into()), KEY_CREATED_AT);
    assert_eq!(
        missing(rpc(vec![s(KEY_APP_ID, "X")], vec![n(KEY_CREATED_AT, 0)]).try_into()),
        KEY_ENCRYPTED
    );
    assert_eq!(missing(rpc(vec![s(KEY_APP_ID, "X")], full_numbers()).try_into()), KEY_LANGUAGE);
}

#[test]
fn a_key_in_the_wrong_namespace_does_not_count() {
    let strings = vec![
        s(KEY_APP_ID, "X"),
        s(KEY_LANGUAGE, "rust"),
        s(KEY_VERSION, "1"),
        s(KEY_ENCRYPTED, "1"),
    ];
    let numbers = vec![n(KEY_CREATED_AT, 5), n(KEY_VERSION, 7)];
    assert_eq!(missing(rpc(strings, numbers).try_into()), KEY_ENCRYPTED);
}

#[test]
fn first_occurrence_of_a_key_wins() {
    let strings = vec![
        s("other", "ignored"),
        s(KEY_LANGUAGE, "rust"),
        s(KEY_APP_ID, "first"),
        s(KEY_LANGUAGE, "go"),
        s(KEY_APP_ID, "second"),
        s(KEY_VERSION, "1.0.0"),
        s(KEY_VERSION, "2.0.0"),
    ];
    let numbers = vec![
        n("other", 9),
        n(KEY_ENCRYPTED, 1),
        n(KEY_CREATED_AT, 7),
        n(KEY_ENCRYPTED, 0),
        n(KEY_CREATED_AT, 8),
    ];
    let metadata = rpc(strings, numbers).try_into().unwrap();
    assert_eq!(metadata.app_id, "first");
    assert_eq!(metadata.language, "rust");
    assert_eq!(metadata.version, "1.0.0");
    assert_eq!(metadata.created_at, 7);
    assert!(metadata.encrypted);
}

#[test]
fn only_the_value_one_means_encrypted() {
    for (flag, expected) in [(0u64, false), (1, true), (2, false), (u64::MAX, false)] {
        let numbers = vec![n(KEY_CREATED_AT, 0), n(KEY_ENCRYPTED, flag)];
        let metadata = rpc(full_strings(), numbers).try_into().unwrap();
        assert_eq!(metadata.encrypted, expected, "flag {flag}");
    }
}

#[test]
fn creation_time_keeps_its_bits() {
    assert_eq!(timestamp_of(0), 0);
    assert_eq!(timestamp_of(1000), 1000);
    assert_eq!(timestamp_of(i64::MAX as u64), i64::MAX);
    assert_eq!(timestamp_of(1 << 63), i64::MIN);
    assert_eq!(timestamp_of(u64::MAX), -1);
    assert_eq!(timestamp_of(u64::MAX - 41), -42);
    let numbers = vec![n(KEY_CREATED_AT, u64::MAX), n(KEY_ENCRYPTED, 0)];
    assert_eq!(rpc(full_strings(), numbers).try_into().unwrap().created_at, -1);
}

#[test]
fn lookup_returns_the_first_match_or_nothing() {
    let strings = vec![s("a", "1"), s("b", "2"), s("a", "3")];
    assert_eq!(find_string(&strings, "a"), Some("1".to_string()));
    assert_eq!(find_string(&strings, "b"), Some("2".to_string()));
    assert_eq!(find_string(&strings, "c"), None);
    assert_eq!(find_string(&strings, ""), None);
    assert_eq!(find_string(&vec![], "a"), None);
    let numbers = vec![n("a", 1), n("", 2), n("a", 3)];
    assert_eq!(find_number(&numbers, "a"), Some(1));
    assert_eq!(find_number(&numbers, ""), Some(2));
    assert_eq!(find_number(&numbers, "A"), None);
}
