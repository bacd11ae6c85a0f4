//! Identities: who owns what is stored in a log.
use crate::bytes;
use crate::bytes::utf8;
use crate::crypto;
use crate::crypto::{ed25519_is_key, ed25519_public, ed25519_signature, ed25519_verifies};
use crate::entries::{lemma_lookup_with_entry, lookup, with_entry, TextMap};
use crate::hexadecimal;
use crate::hexadecimal::{hex_decoded, hex_text, lemma_hex_round_trip};
use crate::text;
use crate::text::Relation;
use vstd::prelude::*;

verus! {

/// The signatures of an identity: of its identifier and of its public key.
#[derive(PartialEq, Eq, Debug)]
pub struct Signatures {
    id: String,
    pub_key: String,
}

impl Signatures {
    /// The signature of the identifier.
    pub closed spec fn id_text(self) -> Seq<char> {
        self.id@
    }

    /// The signature of the public key.
    pub closed spec fn key_text(self) -> Seq<char> {
        self.pub_key@
    }

    /// Signatures of an identifier and of a public key.
    pub fn new(id_sign: &str, pub_sign: &str) -> (r: Signatures)
        ensures
            r.id_text() == id_sign@,
            r.key_text() == pub_sign@,
    {
        Signatures { id: text::owned(id_sign), pub_key: text::owned(pub_sign) }
    }

    /// The signature of the identifier.
    pub fn id(&self) -> (r: &str)
        ensures
            r@ == self.id_text(),
    {
        self.id.as_str()
    }

    /// The signature of the public key.
    pub fn pub_key(&self) -> (r: &str)
        ensures
            r@ == self.key_text(),
    {
        self.pub_key.as_str()
    }
}

impl Clone for Signatures {
    fn clone(&self) -> (r: Self)
        ensures
            r.id_text() == self.id_text(),
            r.key_text() == self.key_text(),
    {
        Signatures { id: self.id.clone(), pub_key: self.pub_key.clone() }
    }
}

/// An identity, which determines who owns what is stored in a log.
#[derive(PartialEq, Eq, Debug)]
pub struct Identity {
    pub id: String,
    pub pub_key: String,
    pub signatures: Signatures,
}

/// The model of an identity.
pub struct IdentityModel {
    pub id: Seq<char>,
    pub pub_key: Seq<char>,
    pub id_signature: Seq<char>,
    pub key_signature: Seq<char>,
}

impl View for Identity {
    type V = IdentityModel;

    open spec fn view(&self) -> IdentityModel {
        IdentityModel {
            id: self.id@,
            pub_key: self.pub_key@,
            id_signature: self.signatures.id_text(),
            key_signature: self.signatures.key_text(),
        }
    }
}

/// The bytes that hexadecimal digits write, where they are as many as asked for.
pub open spec fn hex_of_length(s: Seq<char>, n: nat) -> Option<Seq<u8>> {
    match hex_decoded(s) {
        Some(read) => if read.len() == n {
            Some(read)
        } else {
            None
        },
        None => None,
    }
}

/// The public key that hexadecimal digits write, where they write one.
pub open spec fn key_of(s: Seq<char>) -> Option<Seq<u8>> {
    match hex_of_length(s, 32) {
        Some(key) => if ed25519_is_key(key) {
            Some(key)
        } else {
            None
        },
        None => None,
    }
}

impl Identity {
    /// An identity with an identifier, a public key and signatures.
    pub fn new(id: &str, pub_key: &str, signatures: Signatures) -> (r: Identity)
        ensures
            r.id@ == id@,
            r.pub_key@ == pub_key@,
            r.signatures == signatures,
    {
        Identity { id: text::owned(id), pub_key: text::owned(pub_key), signatures }
    }

    /// The identifier.
    pub fn id(&self) -> (r: &str)
        ensures
            r@ == self@.id,
    {
        self.id.as_str()
    }

    /// The public key, as hexadecimal digits.
    pub fn pub_key(&self) -> (r: &str)
        ensures
            r@ == self@.pub_key,
    {
        self.pub_key.as_str()
    }

    /// The signatures.
    pub fn signatures(&self) -> (r: &Signatures)
        ensures
            *r == self.signatures,
    {
        &self.signatures
    }

    /// The type of the identity.
    pub fn get_type(&self) -> (r: &str)
        ensures
            r@ == "GuardianDB"@,
    {
        "GuardianDB"
    }

    /// The bytes of the signatures that are hexadecimal digits, by name.
    pub fn signatures_map(&self) -> (r: TextMap<Vec<u8>>)
        ensures
            forall|name: Seq<char>|
                signature_under(#[trigger] lookup(r@, name)) == named_signature(self@, name),
    {
        let mut map: TextMap<Vec<u8>> = TextMap::new();
        let ghost start = map@;
        match hexadecimal::decode_opt(self.signatures.id()) {
            Some(read) => {
                map.insert(text::owned("id"), read);
            },
            None => {},
        }
        let ghost middle = map@;
        assert forall|name: Seq<char>| signature_under(#[trigger] lookup(middle, name)) == if name
            == "id"@ {
            hex_decoded(self@.id_signature)
        } else {
            None
        } by {
            if middle != start {
                let value = choose|v: Vec<u8>|
                    middle == with_entry(start, "id"@, v) && Some(v@) == hex_decoded(
                        self@.id_signature,
                    );
                lemma_lookup_with_entry(start, "id"@, value, name);
            }
        }
        match hexadecimal::decode_opt(self.signatures.pub_key()) {
            Some(read) => {
                proof {
                    assert forall|name: Seq<char>| #[trigger]
                        lookup(with_entry(middle, "publicKey"@, read), name) == if name
                        == "publicKey"@ {
                        Some(read)
                    } else {
                        lookup(middle, name)
                    } by {
                        lemma_lookup_with_entry(middle, "publicKey"@, read, name);
                    }
                }
                map.insert(text::owned("publicKey"), read);
            },
            None => {},
        }
        proof {
            reveal_strlit("id");
            reveal_strlit("publicKey");
            assert("id"@.len() != "publicKey"@.len());
        }
        map
    }

    /// The public key, where the identity's digits write one.
    pub fn public_key(&self) -> (r: Option<[u8; 32]>)
        ensures
            match key_of(self@.pub_key) {
                Some(key) => r is Some && r->0@ == key,
                None => r is None,
            },
    {
        let read: Vec<u8> = match hexadecimal::decode_opt(self.pub_key.as_str()) {
            Some(read) => read,
            None => {
                return None;
            },
        };
        match bytes::array32(read.as_slice()) {
            Some(key) => if crypto::check_public_key(&key).is_ok() {
                Some(key)
            } else {
                None
            },
            None => None,
        }
    }

    /// How two identities are ordered: by identifier.
    pub fn relate(&self, other: &Identity) -> (r: Relation)
        ensures
            r == text::text_relation(self@.id, other@.id),
    {
        text::relate(self.id.as_str(), other.id.as_str())
    }
}

impl Clone for Identity {
    fn clone(&self) -> (r: Self)
        ensures
            r@ == self@,
    {
        Identity {
            id: self.id.clone(),
            pub_key: self.pub_key.clone(),
            signatures: self.signatures.clone(),
        }
    }
}

/// The bytes of an optional signature.
pub open spec fn signature_under(value: Option<Vec<u8>>) -> Option<Seq<u8>> {
    match value {
        Some(read) => Some(read@),
        None => None,
    }
}

/// The bytes of the signature of a name: `id` or `publicKey`.
pub open spec fn named_signature(identity: IdentityModel, name: Seq<char>) -> Option<Seq<u8>> {
    if name == "publicKey"@ {
        hex_decoded(identity.key_signature)
    } else if name == "id"@ {
        hex_decoded(identity.id_signature)
    } else {
        None
    }
}

/// A secret key and its public key, as hexadecimal digits.
#[derive(Debug)]
pub struct Keys {
    sec_key: String,
    pub_key: String,
}

impl Keys {
    /// The secret key.
    pub closed spec fn secret_text(self) -> Seq<char> {
        self.sec_key@
    }

    /// The public key.
    pub closed spec fn public_text(self) -> Seq<char> {
        self.pub_key@
    }

    /// A pair of keys.
    pub fn new(sk: &str, pk: &str) -> (r: Keys)
        ensures
            r.secret_text() == sk@,
            r.public_text() == pk@,
    {
        Keys { sec_key: text::owned(sk), pub_key: text::owned(pk) }
    }

    /// The secret key.
    pub fn sec_key(&self) -> (r: &str)
        ensures
            r@ == self.secret_text(),
    {
        self.sec_key.as_str()
    }

    /// The public key.
    pub fn pub_key(&self) -> (r: &str)
        ensures
            r@ == self.public_text(),
    {
        self.pub_key.as_str()
    }
}

/// Whether a signature of a message is valid under a public key, both given as
/// hexadecimal digits.
pub open spec fn signature_valid(msg: Seq<char>, sig: Seq<char>, pk: Seq<char>) -> bool {
    &&& hex_of_length(sig, 64) is Some
    &&& key_of(pk) is Some
    &&& ed25519_verifies(key_of(pk)->0, utf8(msg), hex_of_length(sig, 64)->0)
}

/// Makes identities, keeps their keys, and signs and verifies with them.
pub trait Identificator {
    /// Makes an identity from an identifier and keeps its keys.
    fn create(&mut self, id: &str) -> Identity;

    /// The keys that are kept under a key.
    fn get(&self, key: &str) -> Option<&Keys>;

    /// Whether a signature of a message is valid under a public key.
    fn verify(&self, msg: &str, sig: &str, pk: &str) -> bool;

    /// The signature of a message, or an empty text where the secret key is none.
    fn sign(&self, msg: &str, keys: &Keys) -> String;
}

/// An identificator with Ed25519 keys.
#[derive(Debug)]
pub struct DefaultIdentificator {
    keystore: TextMap<Keys>,
}

/// The texts of a pair of keys.
pub open spec fn key_texts(keys: Option<Keys>) -> Option<(Seq<char>, Seq<char>)> {
    match keys {
        Some(k) => Some((k.secret_text(), k.public_text())),
        None => None,
    }
}

/// The identity of two secret keys: the public key of the first is its
/// identifier, and the second signs it.
pub open spec fn identity_from(first: Seq<u8>, second: Seq<u8>) -> IdentityModel {
    let id = hex_text(ed25519_public(first));
    IdentityModel {
        id,
        pub_key: hex_text(ed25519_public(second)),
        id_signature: hex_text(ed25519_signature(second, utf8(id))),
        key_signature: hex_text(ed25519_signature(second, utf8(id + "GuardianDB"@))),
    }
}

/// Whether an identity is signed by its own public key.
pub open spec fn identity_valid(identity: IdentityModel) -> bool {
    &&& key_of(identity.pub_key) is Some
    &&& hex_of_length(identity.key_signature, 64) is Some
    &&& ed25519_verifies(
        key_of(identity.pub_key)->0,
        utf8(identity.id + "GuardianDB"@),
        hex_of_length(identity.key_signature, 64)->0,
    )
}

/// Whether a keystore is another with the keys of a new identity added: the
/// first under the identifier it was asked for, the second under its public key.
pub open spec fn keeps_identity(
    before: DefaultIdentificator,
    after: DefaultIdentificator,
    id: Seq<char>,
    first: Seq<u8>,
    second: Seq<u8>,
) -> bool {
    let own = hex_text(ed25519_public(first));
    forall|key: Seq<char>|
        #[trigger] after.kept(key) == if key == own {
            Some((hex_text(second), hex_text(ed25519_public(second))))
        } else if key == id {
            Some((hex_text(first), own))
        } else {
            before.kept(key)
        }
}

impl DefaultIdentificator {
    /// The keys that are kept under a key.
    pub closed spec fn kept(self, key: Seq<char>) -> Option<(Seq<char>, Seq<char>)> {
        key_texts(lookup(self.keystore@, key))
    }

    /// An identificator that keeps no keys.
    pub fn new() -> (r: DefaultIdentificator)
        ensures
            forall|key: Seq<char>| #[trigger] r.kept(key) is None,
    {
        DefaultIdentificator { keystore: TextMap::new() }
    }

    /// Keeps a pair of keys under a key.
    fn put(&mut self, k: &str, v: Keys)
        ensures
            forall|key: Seq<char>|
                #[trigger] final(self).kept(key) == if key == k@ {
                    Some((v.secret_text(), v.public_text()))
                } else {
                    old(self).kept(key)
                },
    {
        let ghost before = self.keystore@;
        self.keystore.insert(text::owned(k), v);
        assert forall|key: Seq<char>| #[trigger] self.kept(key) == if key == k@ {
            Some((v.secret_text(), v.public_text()))
        } else {
            old(self).kept(key)
        } by {
            lemma_lookup_with_entry(before, k@, v, key);
        }
    }

    /// Makes the identity of two secret keys and keeps both.
    pub fn create_from(&mut self, id: &str, first: &[u8; 32], second: &[u8; 32]) -> (r: Identity)
        ensures
            r@ == identity_from(first@, second@),
            identity_valid(r@),
            signature_valid(r@.id, r@.id_signature, r@.pub_key),
            keeps_identity(*old(self), *final(self), id@, first@, second@),
    {
        let own: [u8; 32] = crypto::public_key(first);
        let signer: [u8; 32] = crypto::public_key(second);
        let sk: String = hexadecimal::encode(first);
        let ih: String = hexadecimal::encode(&own);
        self.put(id, Keys::new(sk.as_str(), ih.as_str()));
        let mk: String = hexadecimal::encode(second);
        let pk: String = hexadecimal::encode(&signer);
        self.put(ih.as_str(), Keys::new(mk.as_str(), pk.as_str()));
        let id_sign: [u8; 64] = crypto::sign(second, ih.as_str().as_bytes());
        let signed_data: String = text::join2(ih.as_str(), "GuardianDB");
        let pub_sign: [u8; 64] = crypto::sign(second, signed_data.as_str().as_bytes());
        let id_text: String = hexadecimal::encode(&id_sign);
        let pub_text: String = hexadecimal::encode(&pub_sign);
        proof {
            lemma_hex_round_trip(signer@);
            lemma_hex_round_trip(id_sign@);
            lemma_hex_round_trip(pub_sign@);
        }
        Identity::new(
            ih.as_str(),
            pk.as_str(),
            Signatures::new(id_text.as_str(), pub_text.as_str()),
        )
    }
}

impl Default for DefaultIdentificator {
    fn default() -> (r: Self)
        ensures
            forall|key: Seq<char>| #[trigger] r.kept(key) is None,
    {
        Self::new()
    }
}

impl Identificator for DefaultIdentificator {
    fn create(&mut self, id: &str) -> (r: Identity)
        ensures
            identity_valid(r@),
            signature_valid(r@.id, r@.id_signature, r@.pub_key),
            exists|first: Seq<u8>, second: Seq<u8>|
                first.len() == 32 && second.len() == 32 && r@ == #[trigger] identity_from(
                    first,
                    second,
                ) && keeps_identity(*old(self), *final(self), id@, first, second),
    {
        let first: [u8; 32] = crypto::random_bytes();
        let second: [u8; 32] = crypto::random_bytes();
        let r: Identity = self.create_from(id, &first, &second);
        assert(first@.len() == 32 && second@.len() == 32);
        r
    }

    fn get(&self, key: &str) -> (r: Option<&Keys>)
        ensures
            match self.kept(key@) {
                Some((secret, public)) => r is Some && r->0.secret_text() == secret
                    && r->0.public_text() == public,
                None => r is None,
            },
    {
        self.keystore.get(key)
    }

    fn verify(&self, msg: &str, sig: &str, pk: &str) -> (r: bool)
        ensures
            r == signature_valid(msg@, sig@, pk@),
    {
        let sig_bytes: Vec<u8> = match hexadecimal::decode_opt(sig) {
            Some(read) => read,
            None => {
                return false;
            },
        };
        let signature: [u8; 64] = match bytes::array64(sig_bytes.as_slice()) {
            Some(signature) => signature,
            None => {
                return false;
            },
        };
        let pk_bytes: Vec<u8> = match hexadecimal::decode_opt(pk) {
            Some(read) => read,
            None => {
                return false;
            },
        };
        let key: [u8; 32] = match bytes::array32(pk_bytes.as_slice()) {
            Some(key) => key,
            None => {
                return false;
            },
        };
        crypto::verify(&key, msg.as_bytes(), &signature).is_ok()
    }

    fn sign(&self, msg: &str, keys: &Keys) -> (r: String)
        ensures
            match hex_of_length(keys.secret_text(), 32) {
                Some(secret) => r@ == hex_text(ed25519_signature(secret, utf8(msg@))) && (
                keys.public_text() == hex_text(ed25519_public(secret)) ==> signature_valid(msg@, r@, keys.public_text())),
                None => r@ == Seq::<char>::empty(),
            },
    {
        let sk_bytes: Vec<u8> = match hexadecimal::decode_opt(keys.sec_key()) {
            Some(read) => read,
            None => {
                return String::new();
            },
        };
        let secret: [u8; 32] = match bytes::array32(sk_bytes.as_slice()) {
            Some(secret) => secret,
            None => {
                return String::new();
            },
        };
        let signature: [u8; 64] = crypto::sign(&secret, msg.as_bytes());
        proof {
            lemma_hex_round_trip(signature@);
            lemma_hex_round_trip(ed25519_public(secret@));
        }
        hexadecimal::encode(&signature)
    }
}

} // verus!
