use guardian_db::hash::ContentHash;
use guardian_db::json::Json;
use guardian_db::log::entry::{Entry, EntryOrHash, Error, Fetch};
use guardian_db::log::identity::{DefaultIdentificator, Identificator, Identity, Keys, Signatures};
use guardian_db::log::identity_provider::{
    GuardianDBIdentityProvider, IdentityProvider, InMemoryKeystore, Keystore,
};
use guardian_db::log::lamport_clock::LamportClock;
use std::cmp::Ordering;

fn identity(key: &str) -> Identity {
    Identity::new("id", key, Signatures::new("id-signature", "key-signature"))
}

fn hash(byte: u8) -> ContentHash {
    ContentHash { bytes: [byte; 32] }
}

fn entry(byte: u8, next: &[EntryOrHash], time: i32) -> Entry {
    let mut clock = LamportClock::new("key");
    clock.time = time;
    let mut e = Entry::new(identity("key"), "log", b"data", next, Some(clock));
    e.set_hash(&hash(byte));
    e
}

#[test]
fn a_new_entry_holds_its_parents() {
    let parent = entry(1, &[], 0);
    let child = Entry::new(
        identity("key"),
        "log",
        &[0x68, 0xff],
        &[EntryOrHash::Entry(&parent), EntryOrHash::Hash(hash(9))],
        None,
    );
    assert_eq!(child.id(), "log");
    assert_eq!(child.next().len(), 2);
    assert!(child.next()[0].same(&hash(1)));
    assert!(child.next()[1].same(&hash(9)));
    assert!(child.hash().same(&ContentHash::zero()));
    assert_eq!(child.v, 1);
    assert_eq!(child.clock().id(), "key");
    assert_eq!(child.payload(), &[0x68, 0xff]);
    assert_eq!(child.payload_str(), "h\u{fffd}");
    assert!(Entry::is_parent(&parent, &child));
    assert!(!Entry::is_parent(&child, &parent));
    assert_eq!(Entry::empty().id(), "0000");
    assert_eq!(Entry::empty().payload_str(), "0000");
}

#[test]
fn one_parent_shows_as_two_identical_hashes() {
    let h = hash(1);
    let signatures = Signatures::new("a", "b");
    let e = Entry::new(
        Identity::new("p", "k", signatures),
        "log",
        b"x",
        &[EntryOrHash::Hash(h)],
        None,
    );
    assert_eq!(e.next().len(), 2);
    assert!(e.next()[0].same(&h) && e.next()[1].same(&h));
    assert!(entry(1, &[], 0).next().is_empty());
    let two = entry(3, &[EntryOrHash::Hash(hash(1)), EntryOrHash::Hash(hash(2))], 0);
    assert_eq!(two.next().len(), 2);
    assert!(two.next()[0].same(&hash(1)) && two.next()[1].same(&hash(2)));
}

#[test]
fn entries_are_ordered_step_by_step() {
    let early = entry(9, &[], 1);
    let late = entry(2, &[], 2);
    let after = |_: &Entry, _: &Entry| Ordering::Greater;
    let equal = |_: &Entry, _: &Entry| Ordering::Equal;
    assert_eq!(Entry::sort_step_by_step(&after, &early, &late), Ordering::Greater);
    assert_eq!(Entry::sort_step_by_step(&equal, &early, &late), Ordering::Less);
    assert_eq!(Entry::sort_step_by_step(&equal, &early, &early), Ordering::Equal);
    assert_eq!(Entry::sort_by_entry_hash(&early, &late), Ordering::Greater);
    assert_eq!(Entry::last_write_wins(&early, &late), Ordering::Less);

    let mut other = entry(5, &[], 0);
    other.clock = LamportClock::new("zone");
    assert_eq!(Entry::sort_step_by_step(&equal, &late, &other), Ordering::Less);
    assert_eq!(Entry::sort_by_clocks(&equal, &late, &other), Ordering::Greater);
    assert_eq!(Entry::last_write_wins(&late, &other), Ordering::Greater);
    assert_eq!(Entry::last_write_wins(&other, &other), Ordering::Less);
}

#[test]
fn children_are_found_down_the_line() {
    let root = entry(1, &[], 1);
    let second = entry(2, &[EntryOrHash::Entry(&root)], 3);
    let third = entry(3, &[EntryOrHash::Entry(&second)], 2);
    let entries = vec![third, second];
    assert_eq!(Entry::find_children(&root, &entries), vec![0, 1]);
    assert_eq!(Entry::find_children(&entries[0], &entries), Vec::<usize>::new());
}

#[test]
fn children_of_every_branch_are_found() {
    let root = entry(1, &[], 1);
    let left = entry(2, &[EntryOrHash::Entry(&root)], 2);
    let right = entry(3, &[EntryOrHash::Entry(&root)], 2);
    let merged = entry(4, &[EntryOrHash::Entry(&left), EntryOrHash::Entry(&right)], 3);
    let other = entry(5, &[EntryOrHash::Hash(hash(9))], 2);
    let entries = vec![merged, other, right, left];
    assert_eq!(Entry::find_children(&root, &entries), vec![2, 3, 0]);
    assert_eq!(Entry::find_children(&entries[3], &entries), vec![0]);
    let circle = vec![
        entry(6, &[EntryOrHash::Hash(hash(7))], 4),
        entry(7, &[EntryOrHash::Hash(hash(6))], 5),
    ];
    assert_eq!(Entry::find_children(&circle[0], &circle), vec![0, 1]);
}

#[test]
fn the_later_clock_wins() {
    let old = entry(1, &[], 1);
    let new = entry(2, &[], 2);
    assert_eq!(Entry::last_write_wins(&old, &new), Ordering::Less);
    assert_eq!(Entry::last_write_wins(&new, &old), Ordering::Greater);
    let low = entry(1, &[], 5);
    let high = entry(2, &[], 5);
    assert_eq!(Entry::sort_by_entry_hash(&low, &high), Ordering::Less);
    assert_eq!(Entry::sort_by_entry_hash(&high, &low), Ordering::Greater);
    assert_eq!(Entry::sort_by_entry_hash(&low, &low), Ordering::Equal);
    assert_eq!(old.order(&new), Ordering::Less);
    assert!(!old.same(&new));
}

#[test]
fn what_is_stored_of_an_entry() {
    let e = entry(3, &[EntryOrHash::Hash(hash(0xab))], 4);
    let stored = e.stored();
    assert!(stored.get("hash").unwrap().same(&Json::String("null".to_string())));
    assert!(stored.get("payload").unwrap().same(&Json::String("data".to_string())));
    assert!(stored
        .get("next")
        .unwrap()
        .same(&Json::Array(vec![
            Json::String("ab".repeat(32)),
            Json::String("ab".repeat(32)),
        ])));
    let clock = stored.get("clock").unwrap();
    assert!(clock.get("id").unwrap().same(&Json::String("key".to_string())));
}

#[test]
fn a_stored_hash_is_read_or_refused() {
    assert!(Entry::stored_hash(&"0f".repeat(32)).unwrap().same(&hash(0x0f)));
    match Entry::stored_hash("0f") {
        Err(Error::Other(words)) => assert_eq!(words, "Invalid hash length"),
        other => panic!("wrong: {:?}", other),
    }
    match Entry::stored_hash("xyz") {
        Err(Error::Other(words)) => {
            assert_eq!(words, "Failed to decode hash: Odd number of digits")
        }
        other => panic!("wrong: {:?}", other),
    }
    match Entry::stored_hash("0g") {
        Err(Error::Other(words)) => assert_eq!(
            words,
            "Failed to decode hash: Invalid character 'g' at position 1"
        ),
        other => panic!("wrong: {:?}", other),
    }
}

#[test]
fn a_fetch_follows_the_parents() {
    let mut fetch = Fetch::new(vec![hash(2)]);
    assert!(!fetch.is_done());
    fetch.receive(vec![Some(entry(2, &[EntryOrHash::Hash(hash(1))], 1))]);
    assert!(!fetch.is_done());
    assert_eq!(fetch.pending.len(), 2);
    assert!(fetch.pending[0].same(&hash(1)));
    fetch.receive(vec![None, None]);
    assert!(fetch.is_done());
    assert_eq!(fetch.entries.len(), 1);
}

#[test]
fn an_identity_signs_its_own_keys() {
    let mut maker = DefaultIdentificator::new();
    let made = maker.create_from("user", &[1; 32], &[2; 32]);
    assert_eq!(made.id().len(), 64);
    assert_eq!(made.pub_key().len(), 64);
    assert!(maker.verify(made.id(), made.signatures().id(), made.pub_key()));
    assert!(!maker.verify("someone else", made.signatures().id(), made.pub_key()));
    assert!(made.public_key().is_some());
    assert_eq!(made.get_type(), "GuardianDB");
}

#[test]
fn a_random_identity_verifies() {
    let mut maker = DefaultIdentificator::default();
    let made = maker.create("user");
    assert!(maker.verify(made.id(), made.signatures().id(), made.pub_key()));
    let keys = Keys::new("s", "p");
    assert_eq!(keys.sec_key(), "s");
    assert_eq!(keys.pub_key(), "p");
}

#[test]
fn a_keystore_gives_back_what_it_was_given() {
    let mut store = InMemoryKeystore::new();
    assert!(store.get("k").unwrap().is_none());
    store.put("k", &[1, 2]).unwrap();
    assert!(store.has("k").unwrap());
    assert_eq!(store.get("k").unwrap().unwrap(), vec![1, 2]);
    store.delete("k").unwrap();
    assert!(!store.has("k").unwrap());
}

#[test]
fn a_provider_signs_with_its_key() {
    let secret = ed25519_dalek::SigningKey::from_bytes(&[7; 32]);
    let provider = GuardianDBIdentityProvider::new_with_secret_key([7; 32]);
    assert_eq!(&provider.public_key(), secret.verifying_key().as_bytes());
    assert_eq!(provider.get_type(), "GuardianDB");
    let user = identity("key");
    let signature = provider.sign(&user, b"data").unwrap();
    let signature = ed25519_dalek::Signature::from_slice(&signature).unwrap();
    assert!(secret.verifying_key().verify_strict(b"data", &signature).is_ok());
    assert!(secret.verifying_key().verify_strict(b"else", &signature).is_err());
    assert_eq!(
        provider.unmarshal_public_key(secret.verifying_key().as_bytes()).unwrap(),
        provider.public_key()
    );
    assert!(provider.unmarshal_public_key(&[1, 2]).is_err());
    assert!(GuardianDBIdentityProvider::new().get_id().is_ok());
}

#[test]
fn an_identity_is_verified_by_its_signatures() {
    let provider = GuardianDBIdentityProvider::default();
    let mut maker = DefaultIdentificator::new();
    let made = maker.create("user");
    assert!(provider.verify_identity(&made).is_ok());

    let no_key = Identity::new(made.id(), "zz", made.signatures().clone());
    assert_eq!(
        provider.verify_identity(&no_key).unwrap_err().message(),
        "Identity missing public key"
    );
    let no_signature = Identity::new(
        made.id(),
        made.pub_key(),
        Signatures::new(made.signatures().id(), "zz"),
    );
    assert_eq!(
        provider.verify_identity(&no_signature).unwrap_err().message(),
        "Identity missing publicKey signature"
    );
    let short = Identity::new(
        made.id(),
        made.pub_key(),
        Signatures::new(made.signatures().id(), "00"),
    );
    assert!(provider
        .verify_identity(&short)
        .unwrap_err()
        .message()
        .starts_with("Invalid signature format: "));
    let renamed = Identity::new("other", made.pub_key(), made.signatures().clone());
    assert!(provider
        .verify_identity(&renamed)
        .unwrap_err()
        .message()
        .starts_with("Invalid identity signature: "));
}

#[test]
fn clocks_are_ordered_by_time_then_id() {
    let a = LamportClock::new("a");
    let b = LamportClock::new("b");
    assert_eq!(a.time(), 0);
    let ordered = format!("{:?}", a.relate(&b));
    let reversed = format!("{:?}", b.relate(&a));
    assert_ne!(ordered, reversed);
}

#[test]
fn clocks_decide_before_the_resolver_does() {
    let older = entry(1, &[], 1);
    let newer = entry(2, &[], 2);
    let resolve = |_: &Entry, _: &Entry| Ordering::Greater;
    assert_eq!(Entry::sort_by_clocks(&resolve, &older, &newer), Ordering::Less);
    assert_eq!(Entry::sort_by_clocks(&resolve, &newer, &older), Ordering::Greater);
    assert_eq!(Entry::sort_by_clocks(&resolve, &older, &older), Ordering::Greater);
    assert_eq!(Entry::sort_by_clock_ids(&resolve, &older, &newer), Ordering::Greater);
    assert_eq!(Entry::no_zeroes(&resolve, &older, &newer), Ordering::Greater);
}
