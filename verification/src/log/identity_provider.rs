//! Identity providers: signing with and verifying identities.
use crate::bytes;
use crate::crypto;
use crate::crypto::{ed25519_is_key, ed25519_public, ed25519_signature, verifies_under_key};
use crate::entries::{
    lemma_lookup_with_entry, lemma_lookup_without_entry, lemma_with_entry_ordered,
    lemma_without_entry_ordered, lookup, TextMap,
};
use crate::error::{Failure, GuardianError};
use crate::hexadecimal;
use crate::hexadecimal::{hex_decoded, hex_text};
use crate::log::identity::{hex_of_length, identity_valid, key_of, Identity, IdentityModel};
use crate::text;
use vstd::prelude::*;

verus! {

/// Options for making an identity.
#[derive(Debug)]
pub struct CreateIdentityOptions<K> {
    pub identity_keys_path: String,
    pub id_type: String,
    pub keystore: K,
    pub id: String,
}

/// Keeps byte strings under keys.
pub trait Keystore {
    /// What is kept under a key.
    spec fn kept(&self, key: Seq<char>) -> Option<Seq<u8>>;

    /// Keeps a value under a key; a failure leaves everything as it was.
    fn put(&mut self, key: &str, value: &[u8]) -> (r: Result<(), GuardianError>)
        ensures
            forall|k: Seq<char>|
                #[trigger] final(self).kept(k) == if r is Ok && k == key@ {
                    Some(value@)
                } else {
                    old(self).kept(k)
                },
    ;

    /// What is kept under a key.
    fn get(&self, key: &str) -> (r: Result<Option<Vec<u8>>, GuardianError>)
        ensures
            r is Ok ==> match self.kept(key@) {
                Some(value) => r->Ok_0 is Some && r->Ok_0->0@ == value,
                None => r->Ok_0 is None,
            },
    ;

    /// Whether something is kept under a key.
    fn has(&self, key: &str) -> (r: Result<bool, GuardianError>)
        ensures
            r is Ok ==> r->Ok_0 == self.kept(key@) is Some,
    ;

    /// Drops what is kept under a key; a failure leaves everything as it was.
    fn delete(&mut self, key: &str) -> (r: Result<(), GuardianError>)
        ensures
            forall|k: Seq<char>|
                #[trigger] final(self).kept(k) == if r is Ok && k == key@ {
                    None
                } else {
                    old(self).kept(k)
                },
    ;
}

/// A keystore in memory.
pub struct InMemoryKeystore {
    store: TextMap<Vec<u8>>,
}

impl InMemoryKeystore {
    /// Keys in order.
    #[verifier::type_invariant]
    spec fn wf(self) -> bool {
        crate::entries::keys_ordered(self.store@)
    }

    /// A keystore that keeps nothing.
    pub fn new() -> (r: InMemoryKeystore)
        ensures
            forall|k: Seq<char>| #[trigger] r.kept(k) is None,
    {
        InMemoryKeystore { store: TextMap::new() }
    }
}

impl Default for InMemoryKeystore {
    fn default() -> (r: Self)
        ensures
            forall|k: Seq<char>| #[trigger] r.kept(k) is None,
    {
        Self::new()
    }
}

/// The bytes of an optional value.
pub open spec fn bytes_under(value: Option<Vec<u8>>) -> Option<Seq<u8>> {
    match value {
        Some(v) => Some(v@),
        None => None,
    }
}

impl Keystore for InMemoryKeystore {
    closed spec fn kept(&self, key: Seq<char>) -> Option<Seq<u8>> {
        bytes_under(lookup(self.store@, key))
    }

    fn put(&mut self, key: &str, value: &[u8]) -> (r: Result<(), GuardianError>)
        ensures
            r is Ok,
            final(self).kept(key@) == Some(value@),
            forall|k: Seq<char>|
                k != key@ ==> #[trigger] final(self).kept(k) == old(self).kept(k),
    {
        proof {
            use_type_invariant(&*self);
        }
        let ghost before = self.store@;
        let copy: Vec<u8> = bytes::to_vec(value);
        let mut store: TextMap<Vec<u8>> = TextMap::new();
        std::mem::swap(&mut store, &mut self.store);
        store.insert(text::owned(key), copy);
        proof {
            lemma_with_entry_ordered(before, key@, copy);
            assert forall|k: Seq<char>| bytes_under(#[trigger] lookup(store@, k)) == if k == key@ {
                Some(value@)
            } else {
                bytes_under(lookup(before, k))
            } by {
                lemma_lookup_with_entry(before, key@, copy, k);
            }
        }
        self.store = store;
        Ok(())
    }

    fn get(&self, key: &str) -> (r: Result<Option<Vec<u8>>, GuardianError>)
        ensures
            r is Ok,
    {
        match self.store.get(key) {
            Some(value) => Ok(Some(bytes::to_vec(value.as_slice()))),
            None => Ok(None),
        }
    }

    fn has(&self, key: &str) -> (r: Result<bool, GuardianError>)
        ensures
            r is Ok,
    {
        Ok(self.store.contains_key(key))
    }

    fn delete(&mut self, key: &str) -> (r: Result<(), GuardianError>)
        ensures
            r is Ok,
            final(self).kept(key@) is None,
            forall|k: Seq<char>|
                k != key@ ==> #[trigger] final(self).kept(k) == old(self).kept(k),
    {
        proof {
            use_type_invariant(&*self);
        }
        let ghost before = self.store@;
        let mut store: TextMap<Vec<u8>> = TextMap::new();
        std::mem::swap(&mut store, &mut self.store);
        store.remove(key);
        proof {
            lemma_without_entry_ordered(before, key@);
            assert forall|k: Seq<char>| bytes_under(#[trigger] lookup(store@, k)) == if k == key@ {
                None
            } else {
                bytes_under(lookup(before, k))
            } by {
                lemma_lookup_without_entry(before, key@, k);
            }
        }
        self.store = store;
        Ok(())
    }
}

/// Signs data with and verifies identities.
pub trait IdentityProvider {
    /// The identifier of the provider's own identity.
    fn get_id(&self) -> Result<String, GuardianError>;

    /// The signature of an identity's data.
    fn sign_identity(&self, data: &[u8], id: &str) -> Result<Vec<u8>, GuardianError>;

    /// The type of the provider.
    fn get_type(&self) -> String;

    /// Checks that an identity is signed by its public key.
    fn verify_identity(&self, identity: &Identity) -> Result<(), GuardianError>;

    /// The signature of any data.
    fn sign(&self, identity: &Identity, data: &[u8]) -> Result<Vec<u8>, GuardianError>;

    /// The public key that bytes are.
    fn unmarshal_public_key(&self, data: &[u8]) -> Result<[u8; 32], GuardianError>;
}

/// The identity provider of the database: one secret key.
pub struct GuardianDBIdentityProvider {
    secret_key: [u8; 32],
    provider_type: String,
}

/// Whether an identity is refused as it should: for its public key, for its
/// signature's digits, for its signature's length, or for its signature.
pub open spec fn refuses_identity(identity: IdentityModel, e: Failure) -> bool {
    if key_of(identity.pub_key) is None {
        e == Failure::Store("Identity missing public key"@)
    } else if hex_decoded(identity.key_signature) is None {
        e == Failure::Store("Identity missing publicKey signature"@)
    } else if hex_of_length(identity.key_signature, 64) is None {
        exists|detail: Seq<char>|
            e == Failure::Store(#[trigger] ("Invalid signature format: "@ + detail))
    } else {
        exists|detail: Seq<char>|
            e == Failure::Store(#[trigger] ("Invalid identity signature: "@ + detail))
    }
}

impl GuardianDBIdentityProvider {
    /// The bytes of the secret key.
    pub closed spec fn secret(self) -> Seq<u8> {
        self.secret_key@
    }

    /// The type of the provider.
    pub closed spec fn type_text(self) -> Seq<char> {
        self.provider_type@
    }

    /// A provider with a random secret key.
    pub fn new() -> (r: GuardianDBIdentityProvider)
        ensures
            r.secret().len() == 32,
            r.type_text() == "GuardianDB"@,
    {
        Self::new_with_secret_key(crypto::generate_secret_key())
    }

    /// A provider with a secret key.
    pub fn new_with_secret_key(secret_key: [u8; 32]) -> (r: GuardianDBIdentityProvider)
        ensures
            r.secret() == secret_key@,
            r.type_text() == "GuardianDB"@,
    {
        GuardianDBIdentityProvider { secret_key, provider_type: text::owned("GuardianDB") }
    }

    /// The public key of the provider.
    pub fn public_key(&self) -> (r: [u8; 32])
        ensures
            r@ == ed25519_public(self.secret()),
    {
        crypto::public_key(&self.secret_key)
    }
}

impl Default for GuardianDBIdentityProvider {
    fn default() -> (r: Self)
        ensures
            r.secret().len() == 32,
            r.type_text() == "GuardianDB"@,
    {
        Self::new()
    }
}

impl IdentityProvider for GuardianDBIdentityProvider {
    fn get_id(&self) -> (r: Result<String, GuardianError>)
        ensures
            r is Ok && r->Ok_0@ == hex_text(ed25519_public(self.secret())),
    {
        let key: [u8; 32] = self.public_key();
        Ok(hexadecimal::encode(&key))
    }

    fn sign_identity(&self, data: &[u8], id: &str) -> (r: Result<Vec<u8>, GuardianError>)
        ensures
            r is Ok && r->Ok_0@ == ed25519_signature(self.secret(), data@),
            verifies_under_key(ed25519_public(self.secret()), data@, r->Ok_0@),
    {
        let signature: [u8; 64] = crypto::sign(&self.secret_key, data);
        Ok(bytes::to_vec(&signature))
    }

    fn get_type(&self) -> (r: String)
        ensures
            r@ == self.type_text(),
    {
        self.provider_type.clone()
    }

    fn verify_identity(&self, identity: &Identity) -> (r: Result<(), GuardianError>)
        ensures
            r is Ok == identity_valid(identity@),
            r is Err ==> refuses_identity(identity@, r->Err_0@),
    {
        let key: [u8; 32] = match identity.public_key() {
            Some(key) => key,
            None => {
                return Err(GuardianError::Store(text::owned("Identity missing public key")));
            },
        };
        let signatures: TextMap<Vec<u8>> = identity.signatures_map();
        assert(crate::log::identity::signature_under(lookup(signatures@, "publicKey"@))
            == hex_decoded(identity@.key_signature));
        let read: &Vec<u8> = match signatures.get("publicKey") {
            Some(read) => read,
            None => {
                return Err(
                    GuardianError::Store(text::owned("Identity missing publicKey signature")),
                );
            },
        };
        let signature: [u8; 64] = match crypto::parse_signature(read.as_slice()) {
            Ok(signature) => signature,
            Err(detail) => {
                let message: String = text::join2("Invalid signature format: ", detail.as_str());
                assert(message@ == "Invalid signature format: "@ + detail@);
                return Err(GuardianError::Store(message));
            },
        };
        let signed_data: String = text::join2(identity.id(), identity.get_type());
        match crypto::verify(&key, signed_data.as_str().as_bytes(), &signature) {
            Ok(()) => Ok(()),
            Err(detail) => {
                let message: String = text::join2(
                    "Invalid identity signature: ",
                    detail.as_str(),
                );
                assert(message@ == "Invalid identity signature: "@ + detail@);
                Err(GuardianError::Store(message))
            },
        }
    }

    fn sign(&self, identity: &Identity, data: &[u8]) -> (r: Result<Vec<u8>, GuardianError>)
        ensures
            r is Ok && r->Ok_0@ == ed25519_signature(self.secret(), data@),
            verifies_under_key(ed25519_public(self.secret()), data@, r->Ok_0@),
    {
        let signature: [u8; 64] = crypto::sign(&self.secret_key, data);
        Ok(bytes::to_vec(&signature))
    }

    fn unmarshal_public_key(&self, data: &[u8]) -> (r: Result<[u8; 32], GuardianError>)
        ensures
            match r {
                Ok(key) => key@ == data@ && ed25519_is_key(data@),
                Err(e) => if data@.len() != 32 {
                    e@ == Failure::Store("Invalid public key length"@)
                } else {
                    !ed25519_is_key(data@) && exists|detail: Seq<char>|
                        e@ == Failure::Store(
                            #[trigger] ("Failed to unmarshal public key: "@ + detail),
                        )
                },
            },
    {
        let key: [u8; 32] = match bytes::array32(data) {
            Some(key) => key,
            None => {
                return Err(GuardianError::Store(text::owned("Invalid public key length")));
            },
        };
        match crypto::check_public_key(&key) {
            Ok(()) => Ok(key),
            Err(detail) => {
                let message: String = text::join2(
                    "Failed to unmarshal public key: ",
                    detail.as_str(),
                );
                assert(message@ == "Failed to unmarshal public key: "@ + detail@);
                Err(GuardianError::Store(message))
            },
        }
    }
}

} // verus!
