use guardian_db::hash::ContentHash;
use guardian_db::log::entry::{Entry, EntryOrHash, Error};
use guardian_db::log::identity::{Identity, Signatures};
use guardian_db::message_marshaler::{read_message, MessageExchangeHeads, PostcardMarshaler};

fn test_identity() -> Identity {
    Identity::new("test_peer", "test_pubkey", Signatures::new("test_id_sig", "test_pubkey_sig"))
}

fn create_test_message() -> MessageExchangeHeads {
    let entry1 = Entry::new(test_identity(), "test_log", b"test_data_1", &[], None);
    let entry2 = Entry::new(test_identity(), "test_log", b"test_data_2", &[], None);
    MessageExchangeHeads {
        address: "test_address".to_string(),
        heads: vec![entry1, entry2],
    }
}

#[test]
fn test_postcard_roundtrip() {
    let marshaler = PostcardMarshaler::new();
    let message = create_test_message();

    let bytes = marshaler.marshal(&message).expect("Marshal failed");
    let decoded = marshaler.unmarshal(&bytes).expect("Unmarshal failed");

    assert_eq!(message.address, decoded.address);
    assert_eq!(message.heads.len(), decoded.heads.len());
    println!("✅ Postcard roundtrip: {} bytes", bytes.len());
}

#[test]
fn test_postcard_determinism() {
    let marshaler = PostcardMarshaler::new();
    let message = create_test_message();

    let hashes: Vec<String> = (0..5)
        .map(|_| {
            let bytes = marshaler.marshal(&message).expect("Marshal failed");
            blake3::hash(&bytes).to_hex().to_string()
        })
        .collect();

    let first = &hashes[0];
    for hash in &hashes[1..] {
        assert_eq!(first, hash, "Determinism broken!");
    }

    println!("✅ Postcard deterministic hash: {}", first);
}

#[test]
fn every_field_of_a_head_comes_back() {
    let parent = ContentHash { bytes: [7; 32] };
    let mut head = Entry::new(
        test_identity(),
        "test_log",
        &[0, 255, 128],
        &[EntryOrHash::Hash(parent)],
        None,
    );
    head.set_hash(&ContentHash { bytes: [9; 32] });
    head.clock.time = -3;
    let mut bare = Entry::empty();
    bare.identity = None;
    let message = MessageExchangeHeads { address: "ação".to_string(), heads: vec![head, bare] };

    let marshaler = PostcardMarshaler::new();
    let bytes = marshaler.marshal(&message).unwrap();
    let decoded = marshaler.unmarshal(&bytes).unwrap();
    assert_eq!(decoded.address, "ação");
    let head = &decoded.heads[0];
    assert_eq!(head.hash.bytes, [9; 32]);
    assert_eq!(head.id, "test_log");
    assert_eq!(head.payload, vec![0, 255, 128]);
    assert_eq!(head.next.len(), 2);
    assert_eq!(head.next[0].bytes, [7; 32]);
    assert_eq!(head.next[1].bytes, [7; 32]);
    assert_eq!(head.v, message.heads[0].v);
    assert_eq!(head.clock.id(), message.heads[0].clock.id());
    assert_eq!(head.clock.time(), -3);
    let identity = head.identity.as_ref().unwrap();
    assert_eq!(identity.id(), "test_peer");
    assert_eq!(identity.pub_key(), "test_pubkey");
    assert_eq!(identity.signatures().id(), "test_id_sig");
    assert_eq!(identity.signatures().pub_key(), "test_pubkey_sig");
    assert!(decoded.heads[1].identity.is_none());
}

#[test]
fn the_binary_form_is_postcards() {
    let message = MessageExchangeHeads { address: "ab".to_string(), heads: vec![] };
    let marshaler = PostcardMarshaler::default();
    assert_eq!(marshaler.marshal(&message).unwrap(), vec![2, b'a', b'b', 0]);
}

#[test]
fn bytes_that_are_no_heads_are_refused() {
    let marshaler = PostcardMarshaler::new();
    let refused = marshaler.unmarshal(&[5, b'a']).err().unwrap();
    assert!(refused.message().starts_with("Deserialization error: "));

    let mut form = Entry::empty().form();
    form.0 = "no digits".to_string();
    assert!(read_message("address".to_string(), &vec![form]).is_none());
    let bytes = postcard::to_allocvec(&("address", vec![Entry::empty().form()])).unwrap();
    assert!(marshaler.unmarshal(&bytes).is_ok());
    let mut form = Entry::empty().form();
    form.3 = vec!["abcd".to_string()];
    let bytes = postcard::to_allocvec(&("address", vec![form])).unwrap();
    let refused = marshaler.unmarshal(&bytes).err().unwrap();
    assert_eq!(refused.message(), "Deserialization error: Serde Deserialization Error");
}

#[test]
fn a_stored_entry_gets_the_hash_it_was_found_under() {
    let entry = Entry::new(test_identity(), "test_log", b"data", &[], None);
    let bytes = postcard::to_allocvec(&entry.form()).unwrap();
    let hash = ContentHash { bytes: [3; 32] };
    let read = Entry::from_stored(&hash, &bytes).unwrap();
    assert_eq!(read.hash.bytes, [3; 32]);
    assert_eq!(read.id, "test_log");
    assert_eq!(read.payload, b"data".to_vec());

    match Entry::from_stored(&hash, &bytes[..10]) {
        Err(Error::Other(m)) => assert!(m.starts_with("Deserialization error: ")),
        _ => panic!("half an entry was read"),
    }
    let mut form = entry.form();
    form.0 = "ab".to_string();
    let bytes = postcard::to_allocvec(&form).unwrap();
    match Entry::from_stored(&hash, &bytes) {
        Err(Error::Other(m)) => {
            assert_eq!(m, "Deserialization error: Serde Deserialization Error")
        }
        _ => panic!("a short hash was read"),
    }
}
