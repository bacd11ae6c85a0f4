//! What a message of another synchronizer does to the keys.
use crate::crypto::{ed25519_is_key, ed25519_verifies};
use crate::entries::{
    keys_ordered, lemma_lookup_with_entry, lemma_lookup_without_entry, lookup, with_entry,
};
use crate::error::GuardianError;
use crate::hexadecimal::hex_text;
use crate::log::identity_provider::Keystore;
use crate::p2p::network::backend::key_synchronizer::{
    applied, enqueued, is_sync_of, lemma_processed_is_remembered, sync_plan, unsigned_form,
    KeySyncStatus, KeySynchronizer, SyncMessage, SyncOperation, SyncStatusModel,
    SynchronizerModel,
};
use vstd::prelude::*;

verus! {

/// Whether the maps of a synchronizer are in key order.
pub open spec fn in_key_order(m: SynchronizerModel) -> bool {
    keys_ordered(m.known) && keys_ordered(m.status) && keys_ordered(m.processed)
}

/// A message is refused, and changes nothing, that comes from the future, is older than five
/// minutes, comes from a peer that is not trusted, or has a signature that is not valid under
/// the key that its sender is trusted under, unless it was processed before.
pub proof fn lemma_refused_messages<K: Keystore>(
    synchronizer: &mut KeySynchronizer,
    keystore: &mut K,
    message: SyncMessage,
    now: u64,
    r: Result<(), GuardianError>,
)
    requires
        call_ensures(
            KeySynchronizer::handle_sync_message::<K>,
            (synchronizer, keystore, message, now),
            r,
        ),
    ensures
        r is Err ==> final(synchronizer)@ == old(synchronizer)@,
        r is Err ==> forall|k: Seq<char>| #[trigger] final(keystore).kept(k) == old(keystore).kept(k),
        message.timestamp > now ==> r is Err,
        now - message.timestamp > 300_000_000_000 ==> r is Err,
        message.timestamp <= now && now - message.timestamp <= 300_000_000_000 && lookup(
            old(synchronizer)@.processed,
            hex_text(message.message_id@),
        ) is None && !old(synchronizer)@.trusted.dom().contains(message.sender@) ==> r is Err,
        message.timestamp <= now && now - message.timestamp <= 300_000_000_000 && lookup(
            old(synchronizer)@.processed,
            hex_text(message.message_id@),
        ) is None && old(synchronizer)@.trusted.dom().contains(message.sender@) && !(
        ed25519_is_key(old(synchronizer)@.trusted[message.sender@]@) && ed25519_verifies(
            old(synchronizer)@.trusted[message.sender@]@,
            unsigned_form(message),
            message.message_signature@,
        ) && message.message_signature@.len() == 64) ==> r is Err,
        r is Ok && lookup(old(synchronizer)@.processed, hex_text(message.message_id@)) is Some
            ==> final(synchronizer)@ == old(synchronizer)@ && forall|k: Seq<char>|
            #[trigger] final(keystore).kept(k) == old(keystore).kept(k),
{
}

/// A message that is taken for the first time does what it asks for. One that creates or updates
/// a key puts its data into the keystore and what it says of the key among what is known, unless
/// a version that is as late, or later, is there; one that deletes a key lets it be forgotten;
/// one that tells of a key only changes what is known. Nothing else changes but that the message
/// is remembered and counted.
pub proof fn lemma_taken_message<K: Keystore>(
    synchronizer: &mut KeySynchronizer,
    keystore: &mut K,
    message: SyncMessage,
    now: u64,
    r: Result<(), GuardianError>,
    other: Seq<char>,
)
    requires
        call_ensures(
            KeySynchronizer::handle_sync_message::<K>,
            (synchronizer, keystore, message, now),
            r,
        ),
        r is Ok,
        lookup(old(synchronizer)@.processed, hex_text(message.message_id@)) is None,
        in_key_order(old(synchronizer)@),
        old(synchronizer)@.statistics.messages_synced < u64::MAX,
    ensures
        ({
            let key = message.metadata.key_id@;
            let before = old(synchronizer)@;
            let after = final(synchronizer)@;
            let had = old(keystore).kept(key);
            let local = match lookup(before.known, key) {
                Some(metadata) => metadata.version,
                None => 1,
            };
            let version = message.metadata.version;
            let stores = (message.operation is Create && !(had is Some && local >= version)) || (
            message.operation is Update && local <= version);
            &&& message.operation is Update ==> had is Some
            &&& stores ==> {
                &&& lookup(after.known, key) == Some(message.metadata)
                &&& lookup(after.status, key) is Some
                &&& lookup(after.status, key)->0@ == SyncStatusModel::Synchronized
                &&& final(keystore).kept(key) == match message.key_data {
                    Some(data) => Some(data@),
                    None => had,
                }
            }
            &&& message.operation is Delete ==> {
                &&& lookup(after.known, key) is None
                &&& lookup(after.status, key) is None
                &&& final(keystore).kept(key) is None
            }
            &&& message.operation is MetadataSync ==> {
                &&& lookup(after.known, key) == Some(message.metadata)
                &&& after.status == before.status
                &&& final(keystore).kept(key) == had
            }
            &&& !stores && !(message.operation is Delete) && !(message.operation is MetadataSync)
                ==> after.known == before.known && final(keystore).kept(key) == had
            &&& message.operation is Update && !stores ==> lookup(after.status, key) is Some
                && lookup(after.status, key)->0@ is Conflict
            &&& message.operation is Create && !stores ==> after.status == before.status
            &&& other != key ==> lookup(after.known, other) == lookup(before.known, other)
            &&& other != key ==> lookup(after.status, other) == lookup(before.status, other)
            &&& other != key ==> final(keystore).kept(other) == old(keystore).kept(other)
            &&& lookup(after.processed, hex_text(message.message_id@)) == Some(now)
            &&& after.statistics.messages_synced == before.statistics.messages_synced + 1
            &&& after.queue == before.queue
            &&& after.trusted == before.trusted
            &&& after.secret == before.secret
            &&& after.node == before.node
        }),
{
    let key = message.metadata.key_id@;
    let before = old(synchronizer)@;
    let after = final(synchronizer)@;
    let plan = sync_plan(
        before.known,
        message.operation,
        key,
        message.metadata.version,
        old(keystore).kept(key) is Some,
    )->Ok_0;
    assert(applied(before, message, plan, now, after));
    lemma_processed_is_remembered(
        before.processed,
        hex_text(message.message_id@),
        now,
        hex_text(message.message_id@),
    );
    lemma_lookup_with_entry(before.known, key, message.metadata, key);
    lemma_lookup_with_entry(before.known, key, message.metadata, other);
    lemma_lookup_without_entry(before.known, key, key);
    lemma_lookup_without_entry(before.known, key, other);
    lemma_lookup_with_entry(before.status, key, KeySyncStatus::Synchronized, key);
    lemma_lookup_with_entry(before.status, key, KeySyncStatus::Synchronized, other);
    lemma_lookup_without_entry(before.status, key, key);
    lemma_lookup_without_entry(before.status, key, other);
    if plan is Conflict {
        let status = choose|status: KeySyncStatus|
            status@ is Conflict && after.status == #[trigger] with_entry(
                before.status,
                key,
                status,
            );
        lemma_lookup_with_entry(before.status, key, status, key);
        lemma_lookup_with_entry(before.status, key, status, other);
    }
    assert(final(keystore).kept(key) == final(keystore).kept(key));
    assert(final(keystore).kept(other) == final(keystore).kept(other));
}

/// Queuing a message about a key puts it behind those that wait, of which the oldest gives way
/// only if a thousand do. The message carries what is known of the key and is signed, and the
/// key is then being synchronized; nothing else changes.
pub proof fn lemma_queued_key<K: Keystore>(
    synchronizer: &mut KeySynchronizer,
    keystore: &K,
    key_id: &str,
    operation: SyncOperation,
    r: Result<(), GuardianError>,
    other: Seq<char>,
)
    requires
        call_ensures(
            KeySynchronizer::sync_key::<K>,
            (synchronizer, keystore, key_id, operation),
            r,
        ),
    ensures
        r is Err ==> final(synchronizer)@ == old(synchronizer)@,
        lookup(old(synchronizer)@.known, key_id@) is Some ==> r is Ok,
        r is Ok ==> {
            let before = old(synchronizer)@;
            let after = final(synchronizer)@;
            let message = after.queue.last();
            &&& after.queue.len() > 0
            &&& after.queue.drop_last() == if before.queue.len() >= 1000 {
                before.queue.skip(1)
            } else {
                before.queue
            }
            &&& message.operation == operation
            &&& message.sender@ == before.node
            &&& message.key_data is None
            &&& message.metadata.key_id@ == match lookup(before.known, key_id@) {
                Some(metadata) => metadata.key_id@,
                None => key_id@,
            }
            &&& lookup(before.known, key_id@) is Some ==> message.metadata@ == lookup(
                before.known,
                key_id@,
            )->0@
            &&& message.message_signature@ == crate::crypto::ed25519_signature(
                before.secret,
                unsigned_form(message),
            )
            &&& lookup(after.status, key_id@) is Some && lookup(after.status, key_id@)->0@
                is Synchronizing
            &&& other != key_id@ ==> lookup(after.status, other) == lookup(before.status, other)
            &&& after.known == before.known
            &&& after.processed == before.processed
            &&& after.trusted == before.trusted
        },
{
    if r is Ok {
        let before = old(synchronizer)@;
        let after = final(synchronizer)@;
        let message = choose|message: SyncMessage|
            is_sync_of(before, keystore.kept(key_id@), key_id@, operation, message) && after == (
            SynchronizerModel {
                queue: #[trigger] enqueued(before.queue, message),
                status: with_entry(before.status, key_id@, KeySyncStatus::Synchronizing),
                ..before
            });
        assert(after.queue.last() == message);
        assert(after.queue.drop_last() =~= if before.queue.len() >= 1000 {
            before.queue.skip(1)
        } else {
            before.queue
        });
        lemma_lookup_with_entry(before.status, key_id@, KeySyncStatus::Synchronizing, key_id@);
        lemma_lookup_with_entry(before.status, key_id@, KeySyncStatus::Synchronizing, other);
    }
}

/// A peer that is trusted is trusted under its key, until it is trusted no more; every other
/// peer is trusted as before.
pub proof fn lemma_trusted_peers(
    synchronizer: &mut KeySynchronizer,
    peer: crate::p2p::node::NodeId,
    public_key: [u8; 32],
    other: Seq<u8>,
)
    requires
        call_ensures(KeySynchronizer::add_trusted_peer, (synchronizer, peer, public_key), ()),
    ensures
        final(synchronizer)@.trusted.dom().contains(peer@),
        final(synchronizer)@.trusted[peer@] == public_key,
        other != peer@ ==> final(synchronizer)@.trusted.dom().contains(other) == old(synchronizer)@.trusted.dom().contains(other),
        other != peer@ && old(synchronizer)@.trusted.dom().contains(other) ==> final(synchronizer)@.trusted[other] == old(synchronizer)@.trusted[other],
        final(synchronizer)@.known == old(synchronizer)@.known,
        final(synchronizer)@.queue == old(synchronizer)@.queue,
{
}

/// A peer that is trusted no more is not among those that are; it is told whether it was.
pub proof fn lemma_distrusted_peers(
    synchronizer: &mut KeySynchronizer,
    peer: &crate::p2p::node::NodeId,
    r: bool,
    other: Seq<u8>,
)
    requires
        call_ensures(KeySynchronizer::remove_trusted_peer, (synchronizer, peer), r),
    ensures
        r == old(synchronizer)@.trusted.dom().contains(peer@),
        !final(synchronizer)@.trusted.dom().contains(peer@),
        other != peer@ ==> final(synchronizer)@.trusted.dom().contains(other) == old(synchronizer)@.trusted.dom().contains(other),
{
}

} // verus!
