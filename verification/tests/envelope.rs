use alloy_rlp::{Decodable, Header};
use dpaste::note_abi::{Create, Data, Delete, Extend, NoteId, Update};
use dpaste::rlp::{encode_list, put_list, Encode};

fn id(n: u8) -> NoteId {
    let mut bytes = [0u8; 32];
    bytes[31] = n;
    NoteId(bytes)
}

/// Wraps `payload` in the header of a short list or string.
fn short(code: u8, payload: &[u8]) -> Vec<u8> {
    assert!(payload.len() < 56);
    let mut out = vec![code + payload.len() as u8];
    out.extend_from_slice(payload);
    out
}

fn cat(parts: &[&[u8]]) -> Vec<u8> {
    parts.iter().flat_map(|p| p.iter().copied()).collect()
}

/// The bytes of a batch that holds only removals, given the encoded
/// identifier of each: every removal is a list of its identifier.
fn deletes_only(ids: &[&[u8]]) -> Vec<u8> {
    let removals: Vec<Vec<u8>> = ids.iter().map(|id| short(0xc0, id)).collect();
    let parts: Vec<&[u8]> = removals.iter().map(|r| r.as_slice()).collect();
    let list = short(0xc0, &cat(&parts));
    short(0xc0, &cat(&[&[0xc0], &[0xc0], &list, &[0xc0]]))
}

#[test]
fn empty_envelope_is_a_list_of_four_empty_lists() {
    assert_eq!(Data::default().rlp(), vec![0xc4, 0xc0, 0xc0, 0xc0, 0xc0]);
}

#[test]
fn delete_is_a_list_of_the_identifier() {
    let buf = Data::default().with_delete(Delete(id(1))).rlp();
    assert_eq!(buf, vec![0xc6, 0xc0, 0xc0, 0xc2, 0xc1, 0x01, 0xc0]);
    let buf = Data::default().with_delete(Delete(id(5))).rlp();
    assert_eq!(buf, vec![0xc6, 0xc0, 0xc0, 0xc2, 0xc1, 0x05, 0xc0]);
}

#[test]
fn delete_decodes_as_a_list_with_one_member() {
    let buf = Data::default().with_delete(Delete(id(9))).rlp();
    let mut rest: &[u8] = &buf;
    let mut envelope = Header::decode_bytes(&mut rest, true).unwrap();
    assert!(rest.is_empty());
    assert!(Header::decode_bytes(&mut envelope, true).unwrap().is_empty());
    assert!(Header::decode_bytes(&mut envelope, true).unwrap().is_empty());
    let mut removals = Header::decode_bytes(&mut envelope, true).unwrap();
    let mut removal = Header::decode_bytes(&mut removals, true).unwrap();
    assert!(removals.is_empty());
    let note_id = alloy::primitives::U256::decode(&mut removal).unwrap();
    assert_eq!(note_id, alloy::primitives::U256::from(9u64));
    assert!(removal.is_empty());
    assert!(Header::decode_bytes(&mut envelope, true).unwrap().is_empty());
    assert!(envelope.is_empty());
}

#[test]
fn extend_is_a_list_of_identifier_and_amount() {
    let buf = Data::default().with_extend(Extend(id(7), 300)).rlp();
    assert_eq!(buf, vec![0xc9, 0xc0, 0xc0, 0xc0, 0xc5, 0xc4, 0x07, 0x82, 0x01, 0x2c]);
}

#[test]
fn update_starts_with_the_identifier() {
    let buf = Data::default()
        .with_update(
            Update::new(id(9), 1, b"a")
                .with_string_annotation("k", "v")
                .with_numeric_annotation("n", 0),
        )
        .rlp();
    let strings = short(0xc0, &short(0xc0, b"kv"));
    let numbers = short(0xc0, &short(0xc0, &[b'n', 0x80]));
    let update = short(0xc0, &cat(&[&[0x09, 0x01, b'a'], &strings, &numbers]));
    let expected = short(0xc0, &cat(&[&[0xc0], &short(0xc0, &update), &[0xc0], &[0xc0]]));
    assert_eq!(buf, expected);
}

#[test]
fn create_with_annotations_matches_the_expected_bytes() {
    let buf = Data::default()
        .with_create(
            Create::new(300, b"hi")
                .with_string_annotation("app-id", "X")
                .with_numeric_annotation("created-at", 1000),
        )
        .rlp();
    let expected: Vec<u8> = vec![
        0xe5, 0xe1, 0xe0, // envelope, list of creates, the create
        0x82, 0x01, 0x2c, // ttl 300
        0x82, b'h', b'i', // payload
        0xc9, 0xc8, 0x86, b'a', b'p', b'p', b'-', b'i', b'd', b'X',
        0xcf, 0xce, 0x8a, b'c', b'r', b'e', b'a', b't', b'e', b'd', b'-', b'a', b't', 0x82, 0x03,
        0xe8, // 1000
        0xc0, 0xc0, 0xc0, // no updates, removals or extensions
    ];
    assert_eq!(buf, expected);
}

#[test]
fn create_decodes_back_to_the_same_structure() {
    let buf = Data::default()
        .with_create(
            Create::new(300, b"hi")
                .with_string_annotation("app-id", "X")
                .with_numeric_annotation("created-at", 1000),
        )
        .rlp();
    let mut rest: &[u8] = &buf;
    let mut envelope = Header::decode_bytes(&mut rest, true).unwrap();
    assert!(rest.is_empty());
    let mut creates = Header::decode_bytes(&mut envelope, true).unwrap();
    let mut create = Header::decode_bytes(&mut creates, true).unwrap();
    assert!(creates.is_empty());
    assert_eq!(u64::decode(&mut create).unwrap(), 300);
    assert_eq!(Header::decode_bytes(&mut create, false).unwrap(), b"hi");
    let mut strings = Header::decode_bytes(&mut create, true).unwrap();
    let mut string = Header::decode_bytes(&mut strings, true).unwrap();
    assert!(strings.is_empty());
    assert_eq!(Header::decode_str(&mut string).unwrap(), "app-id");
    assert_eq!(Header::decode_str(&mut string).unwrap(), "X");
    assert!(string.is_empty());
    let mut numbers = Header::decode_bytes(&mut create, true).unwrap();
    let mut number = Header::decode_bytes(&mut numbers, true).unwrap();
    assert!(numbers.is_empty());
    assert_eq!(Header::decode_str(&mut number).unwrap(), "created-at");
    assert_eq!(u64::decode(&mut number).unwrap(), 1000);
    assert!(number.is_empty());
    assert!(create.is_empty());
    for _ in 0..3 {
        let list = Header::decode_bytes(&mut envelope, true).unwrap();
        assert!(list.is_empty());
    }
    assert!(envelope.is_empty());
}

#[test]
fn encoding_twice_gives_the_same_bytes() {
    let build = || {
        Data::default()
            .with_create(Create::new(1, b"x").with_string_annotation("a", "b"))
            .with_delete(Delete(id(3)))
            .with_extend(Extend(id(4), 5))
            .rlp()
    };
    assert_eq!(build(), build());
}

#[test]
fn kinds_are_grouped_whatever_the_order_of_calls() {
    let a = Data::default()
        .with_delete(Delete(id(1)))
        .with_create(Create::new(2, b"y"))
        .with_delete(Delete(id(3)))
        .rlp();
    let b = Data::default()
        .with_create(Create::new(2, b"y"))
        .with_delete(Delete(id(1)))
        .with_delete(Delete(id(3)))
        .rlp();
    assert_eq!(a, b);
}

#[test]
fn order_within_a_kind_is_kept() {
    let a = Data::default().with_delete(Delete(id(1))).with_delete(Delete(id(3))).rlp();
    let b = Data::default().with_delete(Delete(id(3))).with_delete(Delete(id(1))).rlp();
    assert_ne!(a, b);
    assert_eq!(a, deletes_only(&[&[1], &[3]]));
    assert_eq!(b, deletes_only(&[&[3], &[1]]));
    assert_eq!(a, vec![0xc8, 0xc0, 0xc0, 0xc4, 0xc1, 0x01, 0xc1, 0x03, 0xc0]);
}

#[test]
fn annotations_keep_insertion_order_and_duplicates() {
    let buf = Data::default()
        .with_create(
            Create::new(0, b"")
                .with_string_annotation("k", "1")
                .with_string_annotation("k", "2")
                .with_string_annotation("j", "1"),
        )
        .rlp();
    let strings = short(
        0xc0,
        &cat(&[&short(0xc0, b"k1"), &short(0xc0, b"k2"), &short(0xc0, b"j1")]),
    );
    let create = short(0xc0, &cat(&[&[0x80, 0x80], &strings, &[0xc0]]));
    let expected = short(0xc0, &cat(&[&short(0xc0, &create), &[0xc0, 0xc0, 0xc0]]));
    assert_eq!(buf, expected);
}

#[test]
fn integers_use_their_minimal_big_endian_bytes() {
    let cases: Vec<(u64, Vec<u8>)> = vec![
        (0, vec![0x80]),
        (1, vec![0x01]),
        (127, vec![0x7f]),
        (128, vec![0x81, 0x80]),
        (255, vec![0x81, 0xff]),
        (256, vec![0x82, 0x01, 0x00]),
        (u64::MAX, vec![0x88, 0xff, 0xff, 0xff, 0xff, 0xff, 0xff, 0xff, 0xff]),
    ];
    for (value, bytes) in cases {
        let buf = Data::default().with_extend(Extend(id(1), value)).rlp();
        let extend = short(0xc0, &cat(&[&[0x01], &bytes]));
        let expected = short(0xc0, &cat(&[&[0xc0, 0xc0, 0xc0], &short(0xc0, &extend)]));
        assert_eq!(buf, expected, "value {value}");
    }
}

#[test]
fn identifiers_drop_their_leading_zero_bytes() {
    assert_eq!(
        Data::default().with_delete(Delete(NoteId([0u8; 32]))).rlp(),
        deletes_only(&[&[0x80]])
    );
    let mut bytes = [0u8; 32];
    bytes[30] = 0x04;
    assert_eq!(
        Data::default().with_delete(Delete(NoteId(bytes))).rlp(),
        deletes_only(&[&[0x82, 0x04, 0x00]])
    );
    bytes[31] = 0x80;
    bytes[30] = 0;
    assert_eq!(
        Data::default().with_delete(Delete(NoteId(bytes))).rlp(),
        deletes_only(&[&[0x81, 0x80]])
    );
    let full = [0xffu8; 32];
    let mut item = vec![0xa0];
    item.extend_from_slice(&full);
    assert_eq!(Data::default().with_delete(Delete(NoteId(full))).rlp(), deletes_only(&[&item]));
}

#[test]
fn identifier_encodes_as_the_integer_it_denotes() {
    let mut bytes = [0u8; 32];
    bytes[0] = 0x12;
    bytes[31] = 0x34;
    let mut out = Vec::new();
    Delete(NoteId(bytes)).encode(&mut out);
    let integer = alloy_rlp::encode(alloy::primitives::U256::from_be_bytes(bytes));
    assert_eq!(out, short(0xc0, &integer));
    assert_eq!(&out[..2], &[0xe1, 0xa0]);
    assert_eq!(&out[2..], &bytes[..]);
}

#[test]
fn payload_of_one_small_byte_stands_for_itself() {
    let buf = Data::default().with_create(Create::new(0, &[0x7f])).rlp();
    let create = short(0xc0, &[0x80, 0x7f, 0xc0, 0xc0]);
    assert_eq!(buf, short(0xc0, &cat(&[&short(0xc0, &create), &[0xc0, 0xc0, 0xc0]])));
    let buf = Data::default().with_create(Create::new(0, &[0x80])).rlp();
    let create = short(0xc0, &[0x80, 0x81, 0x80, 0xc0, 0xc0]);
    assert_eq!(buf, short(0xc0, &cat(&[&short(0xc0, &create), &[0xc0, 0xc0, 0xc0]])));
}

#[test]
fn long_payload_gets_a_length_of_length_header() {
    let payload = vec![0xabu8; 300];
    let buf = Data::default().with_create(Create::new(0, &payload)).rlp();
    // payload item: 0xb9, 0x01, 0x2c, then the 300 bytes
    let mut item = vec![0xb9, 0x01, 0x2c];
    item.extend_from_slice(&payload);
    let mut create_body = vec![0x80];
    create_body.extend_from_slice(&item);
    create_body.extend_from_slice(&[0xc0, 0xc0]);
    assert_eq!(create_body.len(), 306);
    let mut create = vec![0xf9, 0x01, 0x32];
    create.extend_from_slice(&create_body);
    let mut creates = vec![0xf9, 0x01, 0x35];
    creates.extend_from_slice(&create);
    let mut body = creates;
    body.extend_from_slice(&[0xc0, 0xc0, 0xc0]);
    assert_eq!(body.len(), 315);
    let mut expected = vec![0xf9, 0x01, 0x3b];
    expected.extend_from_slice(&body);
    assert_eq!(buf, expected);
}

#[test]
fn payload_of_56_bytes_is_the_first_with_a_long_header() {
    let buf = Data::default().with_create(Create::new(0, &[1u8; 55])).rlp();
    assert_eq!(&buf[6..8], &[0x80, 0xb7]);
    let buf = Data::default().with_create(Create::new(0, &[1u8; 56])).rlp();
    assert_eq!(&buf[6..9], &[0x80, 0xb8, 56]);
}

#[test]
fn text_is_encoded_as_utf8() {
    let buf = Data::default()
        .with_create(Create::new(0, b"").with_string_annotation("é", "ß"))
        .rlp();
    let annotation = short(0xc0, &[0x82, 0xc3, 0xa9, 0x82, 0xc3, 0x9f]);
    let create = short(0xc0, &cat(&[&[0x80, 0x80], &short(0xc0, &annotation), &[0xc0]]));
    assert_eq!(buf, short(0xc0, &cat(&[&short(0xc0, &create), &[0xc0, 0xc0, 0xc0]])));
}

#[test]
fn encode_appends_and_keeps_what_was_there() {
    let mut out = vec![0xaa];
    Extend(id(1), 2).encode(&mut out);
    assert_eq!(out, vec![0xaa, 0xc2, 0x01, 0x02]);
    encode_list(&vec![Delete(id(1)), Delete(id(2))], &mut out);
    assert_eq!(out, vec![0xaa, 0xc2, 0x01, 0x02, 0xc4, 0xc1, 0x01, 0xc1, 0x02]);
    let mut payload = vec![0x05, 0x06];
    put_list(&mut out, &mut payload);
    assert_eq!(
        out,
        vec![0xaa, 0xc2, 0x01, 0x02, 0xc4, 0xc1, 0x01, 0xc1, 0x02, 0xc2, 0x05, 0x06]
    );
    assert!(payload.is_empty());
}

#[test]
fn envelope_matches_the_reference_encoder_on_lists() {
    // every removal is the list of its identifier; the removals are a list of those
    let mut members = Vec::new();
    alloy_rlp::encode_list::<_, alloy::primitives::U256>(
        &[alloy::primitives::U256::from(1u64)],
        &mut members,
    );
    alloy_rlp::encode_list::<_, alloy::primitives::U256>(
        &[alloy::primitives::U256::from(70000u64)],
        &mut members,
    );
    let mut deletes = Vec::new();
    Header { list: true, payload_length: members.len() }.encode(&mut deletes);
    deletes.extend_from_slice(&members);
    let mut second = [0u8; 32];
    second[29..].copy_from_slice(&[0x01, 0x11, 0x70]);
    let buf = Data::default().with_delete(Delete(id(1))).with_delete(Delete(NoteId(second))).rlp();
    let expected = short(0xc0, &cat(&[&[0xc0, 0xc0], &deletes, &[0xc0]]));
    assert_eq!(buf, expected);
}

#[test]
fn different_batches_have_different_bytes() {
    let batches: Vec<Vec<u8>> = vec![
        Data::default().rlp(),
        Data::default().with_create(Create::new(0, b"")).rlp(),
        Data::default().with_create(Create::new(0, b"")).with_create(Create::new(0, b"")).rlp(),
        Data::default().with_create(Create::new(1, b"")).rlp(),
        Data::default().with_create(Create::new(0, b"\x00")).rlp(),
        Data::default().with_create(Create::new(0, b"").with_string_annotation("", "")).rlp(),
        Data::default().with_create(Create::new(0, b"").with_numeric_annotation("", 0)).rlp(),
        Data::default().with_create(Create::new(0, b"").with_string_annotation("ab", "c")).rlp(),
        Data::default().with_create(Create::new(0, b"").with_string_annotation("a", "bc")).rlp(),
        Data::default().with_update(Update::new(id(0), 0, b"")).rlp(),
        Data::default().with_update(Update::new(id(1), 0, b"")).rlp(),
        Data::default().with_delete(Delete(id(0))).rlp(),
        Data::default().with_delete(Delete(id(0))).with_delete(Delete(id(0))).rlp(),
        Data::default().with_extend(Extend(id(0), 0)).rlp(),
        Data::default().with_extend(Extend(id(0), 1)).rlp(),
        Data::default().with_extend(Extend(id(1), 0)).rlp(),
    ];
    for i in 0..batches.len() {
        for j in 0..i {
            assert_ne!(batches[i], batches[j], "batches {i} and {j}");
        }
    }
}
