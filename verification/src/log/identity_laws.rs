//! What identities, keys and signatures are to each other.
use crate::bytes::utf8;
use crate::crypto::{
    ed25519_is_key, ed25519_public, ed25519_signature, ed25519_verifies, verifies_under_key,
};
use crate::entries::{lookup, TextMap};
use crate::error::GuardianError;
use crate::hash::ContentHash;
use crate::hexadecimal::{hex_decoded, lemma_hex_round_trip};
use crate::log::entry::{Entry, Error};
use crate::log::form::EntryForm;
use crate::log::identity::{DefaultIdentificator, Identificator, Identity, Keys};
use crate::log::identity_provider::{
    GuardianDBIdentityProvider, IdentityProvider, InMemoryKeystore, Keystore,
};
use crate::message_marshaler::{MessageExchangeHeads, PostcardMarshaler};
use crate::text::{lemma_text_lt_irreflexive, text_lt, Relation};
use vstd::prelude::*;

verus! {

/// A signature is valid exactly where its digits write sixty-four bytes, those of the key write
/// a public key, and the signature of the message's bytes verifies under it.
pub proof fn lemma_verified_signature(
    keeper: &DefaultIdentificator,
    msg: &str,
    sig: &str,
    pk: &str,
    r: bool,
    key: Seq<u8>,
    signature: Seq<u8>,
)
    requires
        call_ensures(<DefaultIdentificator as Identificator>::verify, (keeper, msg, sig, pk), r),
    ensures
        hex_decoded(pk@) == Some(key) && hex_decoded(sig@) == Some(signature) ==> (r <==> key.len()
            == 32 && signature.len() == 64 && ed25519_is_key(key) && ed25519_verifies(
            key,
            utf8(msg@),
            signature,
        )),
        hex_decoded(pk@) is None ==> !r,
        hex_decoded(sig@) is None ==> !r,
{
}

/// What a pair of keys signs verifies under its public key, and is nothing where the secret key
/// is none.
pub proof fn lemma_signed_is_verified(
    keeper: &DefaultIdentificator,
    msg: &str,
    keys: &Keys,
    signed: String,
    sig: &str,
    pk: &str,
    r: bool,
    secret: Seq<u8>,
)
    requires
        call_ensures(<DefaultIdentificator as Identificator>::sign, (keeper, msg, keys), signed),
        call_ensures(<DefaultIdentificator as Identificator>::verify, (keeper, msg, sig, pk), r),
        sig@ == signed@,
        pk@ == keys.public_text(),
    ensures
        hex_decoded(keys.secret_text()) == Some(secret) && secret.len() == 32 && hex_decoded(pk@)
            == Some(ed25519_public(secret)) && pk@ == crate::hexadecimal::hex_text(
            ed25519_public(secret),
        ) ==> r,
        hex_decoded(keys.secret_text()) == Some(secret) && secret.len() == 32 ==> hex_decoded(
            signed@,
        ) == Some(ed25519_signature(secret, utf8(msg@))),
        hex_decoded(keys.secret_text()) is None ==> signed@.len() == 0,
{
    lemma_hex_round_trip(ed25519_signature(secret, utf8(msg@)));
}

/// An identity that is made of two secret keys writes both public keys. Its identifier and its
/// public key are signed by the second, and verify under it.
pub proof fn lemma_made_identity(
    keeper: &mut DefaultIdentificator,
    id: &str,
    first: &[u8; 32],
    second: &[u8; 32],
    r: Identity,
)
    requires
        call_ensures(DefaultIdentificator::create_from, (keeper, id, first, second), r),
    ensures
        hex_decoded(r.id@) == Some(ed25519_public(first@)),
        hex_decoded(r.pub_key@) == Some(ed25519_public(second@)),
        hex_decoded(r.signatures.id_text()) == Some(ed25519_signature(second@, utf8(r.id@))),
        hex_decoded(r.signatures.key_text()) == Some(
            ed25519_signature(second@, utf8(r.id@ + "GuardianDB"@)),
        ),
        ed25519_verifies(
            ed25519_public(second@),
            utf8(r.id@),
            hex_decoded(r.signatures.id_text())->0,
        ),
        ed25519_verifies(
            ed25519_public(second@),
            utf8(r.id@ + "GuardianDB"@),
            hex_decoded(r.signatures.key_text())->0,
        ),
{
    lemma_hex_round_trip(ed25519_public(first@));
    lemma_hex_round_trip(ed25519_public(second@));
    lemma_hex_round_trip(ed25519_signature(second@, utf8(r.id@)));
    lemma_hex_round_trip(ed25519_signature(second@, utf8(r.id@ + "GuardianDB"@)));
}

/// The keys of an identity that was made are kept: the second under its identifier, the first
/// under the name it was asked for, unless that is the identifier. Others stay.
pub proof fn lemma_made_identity_is_kept(
    keeper: &mut DefaultIdentificator,
    id: &str,
    first: &[u8; 32],
    second: &[u8; 32],
    r: Identity,
    other: Seq<char>,
)
    requires
        call_ensures(DefaultIdentificator::create_from, (keeper, id, first, second), r),
    ensures
        final(keeper).kept(r.id@) is Some,
        hex_decoded((final(keeper).kept(r.id@)->0).0) == Some(second@),
        (final(keeper).kept(r.id@)->0).1 == r.pub_key@,
        id@ != r.id@ ==> final(keeper).kept(id@) is Some && hex_decoded(
            (final(keeper).kept(id@)->0).0,
        ) == Some(first@) && (final(keeper).kept(id@)->0).1 == r.id@,
        other != id@ && other != r.id@ ==> final(keeper).kept(other) == old(keeper).kept(other),
{
    lemma_hex_round_trip(first@);
    lemma_hex_round_trip(second@);
}

/// An identity that was made signs with the keys that are kept under its identifier, and what it
/// signs verifies under its public key.
pub proof fn lemma_identity_signs(
    keeper: &mut DefaultIdentificator,
    id: &str,
    first: &[u8; 32],
    second: &[u8; 32],
    made: Identity,
    then: &DefaultIdentificator,
    key: &str,
    got: Option<&Keys>,
    msg: &str,
    signed: String,
    sig: &str,
    pk: &str,
    r: bool,
)
    requires
        call_ensures(DefaultIdentificator::create_from, (keeper, id, first, second), made),
        *then == *final(keeper),
        key@ == made.id@,
        call_ensures(<DefaultIdentificator as Identificator>::get, (then, key), got),
        got is Some,
        call_ensures(<DefaultIdentificator as Identificator>::sign, (then, msg, got->0), signed),
        sig@ == signed@,
        pk@ == made.pub_key@,
        call_ensures(<DefaultIdentificator as Identificator>::verify, (then, msg, sig, pk), r),
    ensures
        r,
{
    lemma_hex_round_trip(second@);
}

/// An identity is accepted exactly where its public key verifies the signature of its
/// identifier and the type of the database.
pub proof fn lemma_verified_identity(
    provider: &GuardianDBIdentityProvider,
    identity: &Identity,
    r: Result<(), GuardianError>,
    key: Seq<u8>,
    signature: Seq<u8>,
)
    requires
        call_ensures(
            <GuardianDBIdentityProvider as IdentityProvider>::verify_identity,
            (provider, identity),
            r,
        ),
    ensures
        hex_decoded(identity.pub_key@) == Some(key) && hex_decoded(identity.signatures.key_text())
            == Some(signature) ==> (r is Ok <==> signature.len() == 64 && verifies_under_key(
            key,
            utf8(identity.id@ + "GuardianDB"@),
            signature,
        )),
        hex_decoded(identity.pub_key@) is None ==> r is Err,
        hex_decoded(identity.signatures.key_text()) is None ==> r is Err,
{
}

/// An identity that was made is accepted.
pub proof fn lemma_made_identity_is_accepted(
    keeper: &mut DefaultIdentificator,
    id: &str,
    first: &[u8; 32],
    second: &[u8; 32],
    made: Identity,
    provider: &GuardianDBIdentityProvider,
    r: Result<(), GuardianError>,
)
    requires
        call_ensures(DefaultIdentificator::create_from, (keeper, id, first, second), made),
        call_ensures(
            <GuardianDBIdentityProvider as IdentityProvider>::verify_identity,
            (provider, &made),
            r,
        ),
    ensures
        r is Ok,
{
}

/// What a provider signs verifies under its public key, which is what its identifier writes.
pub proof fn lemma_provider_signs(
    provider: &GuardianDBIdentityProvider,
    identity: &Identity,
    data: &[u8],
    r: Result<Vec<u8>, GuardianError>,
    key: [u8; 32],
    id: Result<String, GuardianError>,
)
    requires
        call_ensures(
            <GuardianDBIdentityProvider as IdentityProvider>::sign,
            (provider, identity, data),
            r,
        ),
        call_ensures(GuardianDBIdentityProvider::public_key, (provider,), key),
        call_ensures(<GuardianDBIdentityProvider as IdentityProvider>::get_id, (provider,), id),
    ensures
        r is Ok,
        verifies_under_key(key@, data@, r->Ok_0@),
        id is Ok,
        hex_decoded(id->Ok_0@) == Some(key@),
{
    lemma_hex_round_trip(key@);
}

/// Bytes are taken as a public key exactly where they are one.
pub proof fn lemma_taken_key(
    provider: &GuardianDBIdentityProvider,
    data: &[u8],
    r: Result<[u8; 32], GuardianError>,
)
    requires
        call_ensures(
            <GuardianDBIdentityProvider as IdentityProvider>::unmarshal_public_key,
            (provider, data),
            r,
        ),
    ensures
        r is Ok ==> r->Ok_0@ == data@ && data@.len() == 32 && ed25519_is_key(data@),
        data@.len() == 32 && ed25519_is_key(data@) ==> r is Ok,
{
    if r is Ok {
        assert(r->Ok_0@.len() == 32);
    }
}

/// The public key of an identity is what its digits write, where that is one.
pub proof fn lemma_public_key(identity: &Identity, r: Option<[u8; 32]>)
    requires
        call_ensures(Identity::public_key, (identity,), r),
    ensures
        r is Some ==> hex_decoded(identity.pub_key@) == Some(r->0@) && ed25519_is_key(r->0@),
        hex_decoded(identity.pub_key@) is Some && hex_decoded(identity.pub_key@)->0.len() == 32
            && ed25519_is_key(hex_decoded(identity.pub_key@)->0) ==> r is Some,
{
}

/// The signatures of an identity are told under their names, as what their digits write.
pub proof fn lemma_told_signatures(identity: &Identity, r: TextMap<Vec<u8>>, name: Seq<char>)
    requires
        call_ensures(Identity::signatures_map, (identity,), r),
    ensures
        ({
            let told = crate::log::identity::signature_under(lookup(r@, name));
            &&& name == "id"@ ==> told == hex_decoded(identity.signatures.id_text())
            &&& name == "publicKey"@ ==> told == hex_decoded(identity.signatures.key_text())
            &&& name != "id"@ && name != "publicKey"@ ==> told is None
        }),
{
    reveal_strlit("id");
    reveal_strlit("publicKey");
    assert("id"@.len() == 2 && "publicKey"@.len() == 9);
}

/// Identities come in the order of their identifiers.
pub proof fn lemma_order_of_identities(a: &Identity, b: &Identity, r: Relation)
    requires
        call_ensures(Identity::relate, (a, b), r),
    ensures
        r == Relation::Before <==> text_lt(a.id@, b.id@),
        r == Relation::Same <==> a.id@ == b.id@,
{
    lemma_text_lt_irreflexive(a.id@);
}

/// A keystore gives back what was put in it, until it is deleted; others stay.
pub proof fn lemma_keystore(
    store: &mut InMemoryKeystore,
    key: &str,
    value: &[u8],
    put: Result<(), GuardianError>,
    then: &InMemoryKeystore,
    other: &str,
    got: Result<Option<Vec<u8>>, GuardianError>,
    has: Result<bool, GuardianError>,
)
    requires
        call_ensures(<InMemoryKeystore as Keystore>::put, (store, key, value), put),
        *then == *final(store),
        call_ensures(<InMemoryKeystore as Keystore>::get, (then, other), got),
        call_ensures(<InMemoryKeystore as Keystore>::has, (then, other), has),
    ensures
        put is Ok && got is Ok && has is Ok,
        other@ == key@ ==> got->Ok_0 is Some && got->Ok_0->0@ == value@,
        other@ != key@ ==> (got->Ok_0 is Some <==> old(store).kept(other@) is Some),
        has->Ok_0 <==> got->Ok_0 is Some,
{
}

/// What was deleted from a keystore is there no more; others stay.
pub proof fn lemma_deleted_key(
    store: &mut InMemoryKeystore,
    key: &str,
    r: Result<(), GuardianError>,
    other: Seq<char>,
)
    requires
        call_ensures(<InMemoryKeystore as Keystore>::delete, (store, key), r),
    ensures
        r is Ok,
        final(store).kept(key@) is None,
        other != key@ ==> final(store).kept(other) == old(store).kept(other),
{
}

/// An entry is written with its own values and the digits of its hashes, and what it is written
/// as is read as the entry.
pub proof fn lemma_written_entry(entry: &Entry, form: EntryForm, r: Option<Entry>)
    requires
        call_ensures(Entry::form, (entry,), form),
        call_ensures(Entry::of_form, (&form,), r),
    ensures
        hex_decoded(form.0@) == Some(entry.hash@),
        form.1@ == entry.id@,
        form.2@ == entry.payload@,
        form.3@.len() == entry.next@.len(),
        forall|i: int|
            0 <= i < form.3@.len() ==> hex_decoded((#[trigger] form.3@[i])@) == Some(
                entry.next@[i]@,
            ),
        form.4 == entry.v,
        (form.5).0@ == entry.clock@.id,
        (form.5).1 == entry.clock@.time,
        form.6 is Some <==> entry.identity is Some,
        r is Some,
        r->0@ == entry@,
{
    crate::log::form::lemma_form_round_trip(*entry);
    lemma_hex_round_trip(entry.hash@);
    let model = crate::log::form::form_model(form);
    assert(model.next.len() == form.3@.len());
    assert forall|i: int| 0 <= i < form.3@.len() implies hex_decoded((#[trigger] form.3@[i])@)
        == Some(entry.next@[i]@) by {
        assert(model.next[i] == form.3@[i]@);
        assert(entry@.next[i] == entry.next@[i]@);
        lemma_hex_round_trip(entry.next@[i]@);
    }
}

/// Heads that are marshaled are unmarshaled as they were.
pub proof fn lemma_marshaled_heads(
    marshaler: &PostcardMarshaler,
    message: &MessageExchangeHeads,
    written: Result<Vec<u8>, GuardianError>,
    data: &[u8],
    r: Result<MessageExchangeHeads, GuardianError>,
)
    requires
        call_ensures(PostcardMarshaler::marshal, (marshaler, message), written),
        written is Ok ==> data@ == written->Ok_0@,
        call_ensures(PostcardMarshaler::unmarshal, (marshaler, data), r),
    ensures
        written is Ok,
        r is Ok,
        r->Ok_0.address@ == message.address@,
        r->Ok_0.heads@.len() == message.heads@.len(),
        forall|i: int|
            0 <= i < message.heads@.len() ==> (#[trigger] r->Ok_0.heads@[i])@
                == message.heads@[i]@,
{
    assert(r->Ok_0@.heads.len() == message@.heads.len());
    assert forall|i: int| 0 <= i < message.heads@.len() implies (#[trigger] r->Ok_0.heads@[i])@
        == message.heads@[i]@ by {
        assert(r->Ok_0@.heads[i] == message@.heads[i]);
    }
}

/// An entry that was found under a hash has that hash.
pub proof fn lemma_found_entry(hash: &ContentHash, data: &[u8], r: Result<Entry, Error>)
    requires
        call_ensures(Entry::from_stored, (hash, data), r),
    ensures
        r is Ok ==> r->Ok_0.hash@ == hash@,
{
}

} // verus!
