//! Keys that are kept alike on trusted peers.
//!
//! The keys themselves are in a keystore; the state kept here decides what is
//! accepted, and what the keystore is asked to do. Times are nanoseconds since the
//! start of 1970.
use crate::clock;
use crate::crypto;
use crate::crypto::{blake3_digest, ed25519_is_key, ed25519_public, ed25519_signature,
    ed25519_verifies, verifies_under_key};
use crate::entries::{
    kept_where, lemma_flagged, lookup, with_entry, without_entry, TextMap,
};
use crate::error::{outcome, Failure, GuardianError};
use crate::hexadecimal;
use crate::hexadecimal::hex_text;
use crate::idmap::{lists, IdMap};
use crate::ids;
use crate::ids::is_random_bytes;
use crate::log::identity_provider::Keystore;
use crate::p2p::node;
use crate::p2p::node::{keys, NodeId};
use crate::text;
use crate::text::{decimal_text, texts};
use vstd::prelude::*;

verus! {

/// The version of the protocol.
pub const SYNC_PROTOCOL_VERSION: u32 = 1;

/// How old a message may be, in nanoseconds.
pub const MAX_MESSAGE_AGE: u64 = 300_000_000_000;

/// How many messages may wait to be sent.
pub const MAX_SYNC_QUEUE_SIZE: usize = 1_000;

/// What the node's own key pair is kept under.
pub const MAIN_KEYPAIR_KEY: &'static str = "main_node_keypair";

/// How far a key is kept alike.
#[derive(Debug)]
pub enum KeySyncStatus {
    Synchronized,
    Synchronizing,
    Pending,
    Failed(String),
    Conflict(String),
}

/// The model of a status.
pub enum SyncStatusModel {
    Synchronized,
    Synchronizing,
    Pending,
    Failed(Seq<char>),
    Conflict(Seq<char>),
}

impl View for KeySyncStatus {
    type V = SyncStatusModel;

    open spec fn view(&self) -> SyncStatusModel {
        match self {
            KeySyncStatus::Synchronized => SyncStatusModel::Synchronized,
            KeySyncStatus::Synchronizing => SyncStatusModel::Synchronizing,
            KeySyncStatus::Pending => SyncStatusModel::Pending,
            KeySyncStatus::Failed(m) => SyncStatusModel::Failed(m@),
            KeySyncStatus::Conflict(m) => SyncStatusModel::Conflict(m@),
        }
    }
}

/// What a message is about.
#[derive(Clone, Copy, PartialEq, Eq, Structural, Debug)]
pub enum SyncOperation {
    Create,
    Update,
    Delete,
    MetadataSync,
}

/// What is known of a key.
#[derive(Debug)]
pub struct KeyMetadata {
    pub key_id: String,
    pub version: u64,
    /// When it was last changed.
    pub last_modified: i64,
    pub creator: NodeId,
    pub signature: Vec<u8>,
    pub crypto_algorithm: String,
    pub public_key_hash: Vec<u8>,
}

/// The model of what is known of a key.
#[verifier::ext_equal]
pub struct MetadataModel {
    pub key_id: Seq<char>,
    pub version: u64,
    pub last_modified: i64,
    pub creator: Seq<u8>,
    pub signature: Seq<u8>,
    pub crypto_algorithm: Seq<char>,
    pub public_key_hash: Seq<u8>,
}

impl View for KeyMetadata {
    type V = MetadataModel;

    open spec fn view(&self) -> MetadataModel {
        MetadataModel {
            key_id: self.key_id@,
            version: self.version,
            last_modified: self.last_modified,
            creator: self.creator@,
            signature: self.signature@,
            crypto_algorithm: self.crypto_algorithm@,
            public_key_hash: self.public_key_hash@,
        }
    }
}

impl KeyMetadata {
    /// A copy.
    pub fn copy(&self) -> (r: KeyMetadata)
        ensures
            r@ == self@,
    {
        KeyMetadata {
            key_id: self.key_id.clone(),
            version: self.version,
            last_modified: self.last_modified,
            creator: self.creator,
            signature: crate::bytes::to_vec(self.signature.as_slice()),
            crypto_algorithm: self.crypto_algorithm.clone(),
            public_key_hash: crate::bytes::to_vec(self.public_key_hash.as_slice()),
        }
    }
}

/// A message between peers.
#[derive(Debug)]
pub struct SyncMessage {
    pub message_id: [u8; 16],
    pub protocol_version: u32,
    pub timestamp: u64,
    pub sender: NodeId,
    pub operation: SyncOperation,
    pub metadata: KeyMetadata,
    pub key_data: Option<Vec<u8>>,
    pub message_signature: Vec<u8>,
}

/// How many messages were processed, and how matters stood when the last one was.
#[derive(Clone, Copy, PartialEq, Eq, Structural, Debug)]
pub struct SyncStatistics {
    pub messages_synced: u64,
    pub pending_messages: u64,
    pub conflicts_detected: u64,
    pub conflicts_resolved: u64,
    /// The number of keys with a status, and of those that are alike.
    pub total_keys: u64,
    pub synchronized_keys: u64,
    pub active_peers: u32,
}

impl Default for SyncStatistics {
    fn default() -> (r: SyncStatistics)
        ensures
            r == no_statistics(),
    {
        SyncStatistics {
            messages_synced: 0,
            pending_messages: 0,
            conflicts_detected: 0,
            conflicts_resolved: 0,
            total_keys: 0,
            synchronized_keys: 0,
            active_peers: 0,
        }
    }
}

/// The statistics before any message was processed.
pub open spec fn no_statistics() -> SyncStatistics {
    SyncStatistics {
        messages_synced: 0,
        pending_messages: 0,
        conflicts_detected: 0,
        conflicts_resolved: 0,
        total_keys: 0,
        synchronized_keys: 0,
        active_peers: 0,
    }
}

/// The number that stands for an operation in a message's binary form.
pub open spec fn operation_number(operation: SyncOperation) -> u32 {
    match operation {
        SyncOperation::Create => 0,
        SyncOperation::Update => 1,
        SyncOperation::Delete => 2,
        SyncOperation::MetadataSync => 3,
    }
}

/// The view of optional bytes.
pub open spec fn optional_bytes(data: Option<Vec<u8>>) -> Option<Seq<u8>> {
    match data {
        Some(d) => Some(d@),
        None => None,
    }
}

/// A message without a signature in postcard's binary form: its identifier, the version, the
/// time in seconds and nanoseconds, the sender, the number of the operation, what is known of
/// the key, and the key's data.
pub uninterp spec fn postcard_message(
    id: Seq<u8>,
    version: u32,
    seconds: u64,
    nanos: u32,
    sender: Seq<u8>,
    operation: u32,
    metadata: MetadataModel,
    key_data: Option<Seq<u8>>,
) -> Seq<u8>;

/// The binary form that a message's signature is made of.
pub open spec fn unsigned_form(message: SyncMessage) -> Seq<u8> {
    postcard_message(
        message.message_id@,
        message.protocol_version,
        message.timestamp / 1_000_000_000,
        (message.timestamp % 1_000_000_000) as u32,
        message.sender@,
        operation_number(message.operation),
        message.metadata@,
        optional_bytes(message.key_data),
    )
}

/// `postcard::to_allocvec` writes values one after the other: here the fields of a message
/// with an empty signature, the date as the one that `DateTime::from_timestamp_nanos` gives
/// of its nanoseconds. What it writes depends on the values alone. It always can: a vector
/// takes all that is written to it, the length of each sequence is known, and a date that
/// 64 bits of nanoseconds can tell has a year of four digits.
#[verifier::external_body]
fn postcard_bytes(message: &SyncMessage, seconds: u64, nanos: u32, operation: u32) -> (r: Result<
    Vec<u8>,
    String,
>)
    ensures
        r is Ok,
        r->Ok_0@ == postcard_message(
            message.message_id@,
            message.protocol_version,
            seconds,
            nanos,
            message.sender@,
            operation,
            message.metadata@,
            optional_bytes(message.key_data),
        ),
{
    let m = &message.metadata;
    let changed = chrono::DateTime::from_timestamp_nanos(m.last_modified);
    let key = (&m.key_id, m.version, changed, m.creator.bytes);
    let signed = (&m.signature, &m.crypto_algorithm, &m.public_key_hash);
    let head = (&message.message_id[..], message.protocol_version, (seconds, nanos));
    let about = (message.sender.bytes, operation, key, signed);
    postcard::to_allocvec(&(head, about, &message.key_data, Vec::<u8>::new()))
        .map_err(|e| e.to_string())
}

/// The binary form that a message's signature is made of.
fn unsigned_bytes(message: &SyncMessage) -> (r: Result<Vec<u8>, GuardianError>)
    ensures
        r is Ok,
        r->Ok_0@ == unsigned_form(*message),
{
    let operation: u32 = match message.operation {
        SyncOperation::Create => 0,
        SyncOperation::Update => 1,
        SyncOperation::Delete => 2,
        SyncOperation::MetadataSync => 3,
    };
    let seconds: u64 = message.timestamp / 1_000_000_000;
    let nanos: u32 = (message.timestamp % 1_000_000_000) as u32;
    match postcard_bytes(message, seconds, nanos, operation) {
        Ok(form) => Ok(form),
        Err(detail) => {
            Err(GuardianError::Other(text::join2("Error serializing message: ", detail.as_str())))
        },
    }
}

/// What the keystore is asked to do about a message, and what is noted then.
#[derive(Clone, Copy, PartialEq, Eq, Structural, Debug)]
pub enum SyncPlan {
    /// Nothing: the key is there in this version or a later one.
    Skip,
    /// Nothing: the key is there in a later version, which is noted.
    Conflict { local: u64 },
    /// The key's data, if there is any, is stored; then what is known of it is noted.
    Store,
    /// The key is deleted; then it is forgotten.
    Delete,
    /// What is known of the key is noted.
    Metadata,
}

/// What is known of a key that was not heard of, from its data.
pub open spec fn first_metadata(
    key_id: Seq<char>,
    last_modified: i64,
    creator: Seq<u8>,
    data: Seq<u8>,
) -> MetadataModel {
    MetadataModel {
        key_id,
        version: 1,
        last_modified,
        creator,
        signature: Seq::empty(),
        crypto_algorithm: "Ed25519"@,
        public_key_hash: blake3_digest(data),
    }
}

/// Whether the signature of a message is the one of its binary form under a secret key.
pub open spec fn signed_by(secret: Seq<u8>, message: SyncMessage) -> bool {
    let form = unsigned_form(message);
    &&& message.message_signature@ == ed25519_signature(secret, form)
    &&& message.message_signature@.len() == 64
    &&& verifies_under_key(ed25519_public(secret), form, message.message_signature@)
}

/// Whether a message is too old.
pub open spec fn too_old(timestamp: u64, now: u64) -> bool {
    now - timestamp > MAX_MESSAGE_AGE
}

/// Whether a message that was processed at a time is remembered.
pub open spec fn remembered(now: u64) -> spec_fn(u64) -> bool {
    |at: u64| at + MAX_MESSAGE_AGE > now
}

/// The version of a key, as far as it is known; a key that was not heard of is in its first.
pub open spec fn known_version(known: Seq<(Seq<char>, KeyMetadata)>, key_id: Seq<char>) -> u64 {
    match lookup(known, key_id) {
        Some(metadata) => metadata.version,
        None => 1,
    }
}

/// What is to be done about a message.
pub open spec fn sync_plan(
    known: Seq<(Seq<char>, KeyMetadata)>,
    operation: SyncOperation,
    key_id: Seq<char>,
    version: u64,
    is_stored: bool,
) -> Result<SyncPlan, Failure> {
    match operation {
        SyncOperation::Create => if is_stored && known_version(known, key_id) >= version {
            Ok(SyncPlan::Skip)
        } else {
            Ok(SyncPlan::Store)
        },
        SyncOperation::Update => if !is_stored {
            Err(Failure::Other("Key not found: "@ + key_id))
        } else if known_version(known, key_id) > version {
            Ok(SyncPlan::Conflict { local: known_version(known, key_id) })
        } else {
            Ok(SyncPlan::Store)
        },
        SyncOperation::Delete => Ok(SyncPlan::Delete),
        SyncOperation::MetadataSync => Ok(SyncPlan::Metadata),
    }
}

/// The messages that wait once one more does: the oldest gives way if there are too many.
pub open spec fn enqueued(queue: Seq<SyncMessage>, message: SyncMessage) -> Seq<SyncMessage> {
    if queue.len() >= MAX_SYNC_QUEUE_SIZE {
        queue.skip(1).push(message)
    } else {
        queue.push(message)
    }
}

/// What is known of keys once a message was applied.
pub open spec fn known_after(
    known: Seq<(Seq<char>, KeyMetadata)>,
    metadata: KeyMetadata,
    plan: SyncPlan,
) -> Seq<(Seq<char>, KeyMetadata)> {
    match plan {
        SyncPlan::Store => with_entry(known, metadata.key_id@, metadata),
        SyncPlan::Metadata => with_entry(known, metadata.key_id@, metadata),
        SyncPlan::Delete => without_entry(known, metadata.key_id@),
        _ => known,
    }
}

/// Whether the status of keys is as a message that was applied leaves it.
pub open spec fn status_after(
    before: Seq<(Seq<char>, KeySyncStatus)>,
    metadata: KeyMetadata,
    plan: SyncPlan,
    after: Seq<(Seq<char>, KeySyncStatus)>,
) -> bool {
    match plan {
        SyncPlan::Store => after == with_entry(
            before,
            metadata.key_id@,
            KeySyncStatus::Synchronized,
        ),
        SyncPlan::Delete => after == without_entry(before, metadata.key_id@),
        SyncPlan::Conflict { local } => exists|status: KeySyncStatus|
            status@ == SyncStatusModel::Conflict(
                "Local: v"@ + decimal_text(local as nat) + ", Remote: v"@ + decimal_text(
                    metadata.version as nat,
                ),
            ) && after == #[trigger] with_entry(before, metadata.key_id@, status),
        _ => after == before,
    }
}

/// Whether a check of a message's signature came out as it must: the sender is trusted,
/// and the signature of the message's binary form is valid under the key that the sender is
/// trusted under.
pub open spec fn signature_checked(
    trusted: Map<Seq<u8>, [u8; 32]>,
    message: SyncMessage,
    r: Result<(), Failure>,
) -> bool {
    if !trusted.dom().contains(message.sender@) {
        r == Err::<(), Failure>(Failure::Other("Untrusted peer: "@ + hex_text(message.sender@)))
    } else if message.message_signature@.len() != 64 {
        r is Err && exists|detail: Seq<char>|
            r->Err_0 == Failure::Other(#[trigger] ("Invalid signature: "@ + detail))
    } else if ed25519_is_key(trusted[message.sender@]@) && ed25519_verifies(
        trusted[message.sender@]@,
        unsigned_form(message),
        message.message_signature@,
    ) {
        r is Ok
    } else {
        r is Err && exists|detail: Seq<char>|
            r->Err_0 == Failure::Other(#[trigger] ("Signature verification failed: "@ + detail))
    }
}

/// Whether a message is to be processed, or why not: it is not from the future and not too
/// old, it was not processed before, and its signature is valid. `None` is a message that
/// was processed before.
pub open spec fn screened(
    m: SynchronizerModel,
    message: SyncMessage,
    now: u64,
    r: Result<bool, Failure>,
) -> bool {
    if message.timestamp > now {
        r == Err::<bool, Failure>(Failure::Other("Invalid timestamp"@))
    } else if too_old(message.timestamp, now) {
        r == Err::<bool, Failure>(Failure::Other("Message too old"@))
    } else if lookup(m.processed, hex_text(message.message_id@)) is Some {
        r == Ok::<bool, Failure>(false)
    } else {
        (r is Ok ==> r->Ok_0) && signature_checked(
            m.trusted,
            message,
            match r {
                Ok(_) => Ok(()),
                Err(e) => Err(e),
            },
        )
    }
}

/// The statistics once one more message was processed.
pub open spec fn statistics_after(
    before: SyncStatistics,
    queue: Seq<SyncMessage>,
    trusted: Map<Seq<u8>, [u8; 32]>,
    status: Seq<(Seq<char>, KeySyncStatus)>,
) -> SyncStatistics {
    SyncStatistics {
        messages_synced: (before.messages_synced + 1) as u64,
        pending_messages: queue.len() as u64,
        active_peers: #[verifier::truncate]
        (trusted.len() as u32),
        total_keys: status.len() as u64,
        synchronized_keys: kept_where(status, |s: KeySyncStatus| s@ is Synchronized).len() as u64,
        ..before
    }
}

/// Whether a synchronizer is as a message that was processed leaves it.
pub open spec fn applied(
    before: SynchronizerModel,
    message: SyncMessage,
    plan: SyncPlan,
    now: u64,
    after: SynchronizerModel,
) -> bool {
    &&& status_after(before.status, message.metadata, plan, after.status)
    &&& after == (SynchronizerModel {
        known: known_after(before.known, message.metadata, plan),
        status: after.status,
        processed: kept_where(
            with_entry(before.processed, hex_text(message.message_id@), now),
            remembered(now),
        ),
        statistics: statistics_after(
            before.statistics,
            before.queue,
            before.trusted,
            after.status,
        ),
        ..before
    })
}

/// What a keystore keeps under a key once it did what a plan asks for.
pub open spec fn stored_after(
    before: Option<Seq<u8>>,
    is_key: bool,
    key_data: Option<Seq<u8>>,
    plan: SyncPlan,
) -> Option<Seq<u8>> {
    if !is_key {
        before
    } else {
        match plan {
            SyncPlan::Store => match key_data {
                Some(data) => Some(data),
                None => before,
            },
            SyncPlan::Delete => None,
            _ => before,
        }
    }
}

/// Whether a message tells of a key as a synchronizer must tell of it: with what is known
/// of the key, without its data, and signed.
pub open spec fn is_sync_of(
    m: SynchronizerModel,
    stored: Option<Seq<u8>>,
    key_id: Seq<char>,
    operation: SyncOperation,
    message: SyncMessage,
) -> bool {
    &&& is_random_bytes(message.message_id@)
    &&& message.protocol_version == SYNC_PROTOCOL_VERSION
    &&& message.sender@ == m.node
    &&& message.operation == operation
    &&& message.key_data is None
    &&& signed_by(m.secret, message)
    &&& match lookup(m.known, key_id) {
        Some(metadata) => message.metadata@ == metadata@,
        None => stored is Some && message.metadata@ == first_metadata(
            key_id,
            message.metadata.last_modified,
            m.node,
            stored->0,
        ),
    }
}

/// Whether nothing can be told of a key, and why: it was not heard of, and either the
/// keystore's `get` failed or the keystore does not have it.
pub open spec fn nothing_told<K: Keystore>(
    m: SynchronizerModel,
    keystore: &K,
    key_id: &str,
    e: GuardianError,
) -> bool {
    &&& lookup(m.known, key_id@) is None
    &&& {
        ||| call_ensures(K::get, (keystore, key_id), Err(e))
        ||| keystore.kept(key_id@) is None && e@ == Failure::Other("Key not found: "@ + key_id@)
    }
}

/// Whether a message about a key was queued.
pub open spec fn one_queued(
    before: SynchronizerModel,
    stored: Option<Seq<u8>>,
    key_id: Seq<char>,
    message: SyncMessage,
    after: SynchronizerModel,
) -> bool {
    is_sync_of(before, stored, key_id, SyncOperation::MetadataSync, message) && after == (
    SynchronizerModel {
        queue: enqueued(before.queue, message),
        status: with_entry(before.status, key_id, KeySyncStatus::Synchronizing),
        ..before
    })
}

/// Whether a message about each of some keys was queued, one after the other.
pub open spec fn all_queued<K: Keystore>(
    before: SynchronizerModel,
    keystore: K,
    keys: Seq<Seq<char>>,
    messages: Seq<SyncMessage>,
    after: SynchronizerModel,
) -> bool
    decreases keys.len(),
{
    if keys.len() == 0 {
        messages.len() == 0 && after == before
    } else {
        messages.len() == keys.len() && exists|middle: SynchronizerModel|
            all_queued(before, keystore, keys.drop_last(), messages.drop_last(), middle)
                && #[trigger] one_queued(
                middle,
                keystore.kept(keys.last()),
                keys.last(),
                messages.last(),
                after,
            )
    }
}

/// Keeps keys alike with trusted peers.
#[derive(Debug)]
pub struct KeySynchronizer {
    secret: [u8; 32],
    node_id: NodeId,
    synchronized_keys: TextMap<KeyMetadata>,
    sync_status: TextMap<KeySyncStatus>,
    sync_queue: Vec<SyncMessage>,
    message_cache: TextMap<u64>,
    statistics: SyncStatistics,
    trusted_peers: IdMap<[u8; 32]>,
}

/// The model of a synchronizer.
#[verifier::ext_equal]
pub struct SynchronizerModel {
    pub secret: Seq<u8>,
    pub node: Seq<u8>,
    pub known: Seq<(Seq<char>, KeyMetadata)>,
    pub status: Seq<(Seq<char>, KeySyncStatus)>,
    pub queue: Seq<SyncMessage>,
    /// When messages were processed, by the digits of their identifiers.
    pub processed: Seq<(Seq<char>, u64)>,
    pub statistics: SyncStatistics,
    pub trusted: Map<Seq<u8>, [u8; 32]>,
}

/// A synchronizer with a key pair that trusts nobody.
pub open spec fn fresh(secret: Seq<u8>) -> SynchronizerModel {
    SynchronizerModel {
        secret,
        node: ed25519_public(secret),
        known: Seq::empty(),
        status: Seq::empty(),
        queue: Seq::empty(),
        processed: Seq::empty(),
        statistics: no_statistics(),
        trusted: Map::empty(),
    }
}

impl View for KeySynchronizer {
    type V = SynchronizerModel;

    closed spec fn view(&self) -> SynchronizerModel {
        SynchronizerModel {
            secret: self.secret@,
            node: self.node_id@,
            known: self.synchronized_keys@,
            status: self.sync_status@,
            queue: self.sync_queue@,
            processed: self.message_cache@,
            statistics: self.statistics,
            trusted: self.trusted_peers@,
        }
    }
}

/// The key pair that was stored, if it is one.
pub fn stored_keypair(stored: Option<Vec<u8>>) -> (r: Option<[u8; 32]>)
    ensures
        match stored {
            Some(data) => if data@.len() == 32 {
                r is Some && r->0@ == data@
            } else {
                r is None
            },
            None => r is None,
        },
{
    match stored {
        Some(data) => crate::bytes::array32(data.as_slice()),
        None => None,
    }
}

/// Whether what is stored is a key pair.
pub open spec fn is_keypair(stored: Option<Seq<u8>>) -> bool {
    stored is Some && stored->0.len() == 32
}

/// The key pair of a node: the one that the keystore has, else a new one, which is put
/// there. It fails only where the keystore does: with the error of its `get`, or, if it has no
/// key pair, with the error of its `put`.
pub fn load_or_generate_keypair<K: Keystore>(keystore: &mut K) -> (r: Result<
    [u8; 32],
    GuardianError,
>)
    ensures
        r is Err ==> forall|k: Seq<char>| #[trigger] final(keystore).kept(k) == old(keystore).kept(k),
        r is Err ==> {
            ||| call_ensures(K::get, (&*old(keystore), MAIN_KEYPAIR_KEY), Err(r->Err_0))
            ||| !is_keypair(old(keystore).kept(MAIN_KEYPAIR_KEY@)) && exists|
                store: &mut K,
                secret: &[u8],
            |
                *store == *old(keystore) && *final(store) == *final(keystore) && secret@.len() == 32
                    && #[trigger] call_ensures(
                    K::put,
                    (store, MAIN_KEYPAIR_KEY, secret),
                    Err(r->Err_0),
                )
        },
        r is Ok && is_keypair(old(keystore).kept(MAIN_KEYPAIR_KEY@)) ==> old(keystore).kept(
            MAIN_KEYPAIR_KEY@,
        ) == Some(r->Ok_0@),
        r is Ok ==> forall|k: Seq<char>|
            #[trigger] final(keystore).kept(k) == if k == MAIN_KEYPAIR_KEY@ {
                Some(r->Ok_0@)
            } else {
                old(keystore).kept(k)
            },
{
    let stored: Option<Vec<u8>> = match keystore.get(MAIN_KEYPAIR_KEY) {
        Ok(stored) => stored,
        Err(e) => {
            return Err(e);
        },
    };
    match stored_keypair(stored) {
        Some(secret) => Ok(secret),
        None => {
            let secret: [u8; 32] = crypto::random_bytes();
            match keystore.put(MAIN_KEYPAIR_KEY, &secret) {
                Ok(_) => Ok(secret),
                Err(e) => Err(e),
            }
        },
    }
}

impl KeySynchronizer {
    /// A synchronizer that trusts nobody, with the key pair that the keystore has, or a new
    /// one. It fails only where the keystore does.
    pub fn new<K: Keystore>(keystore: &mut K) -> (r: Result<KeySynchronizer, GuardianError>)
        ensures
            r is Err ==> forall|k: Seq<char>|
                #[trigger] final(keystore).kept(k) == old(keystore).kept(k),
            r is Err ==> {
                ||| call_ensures(K::get, (&*old(keystore), MAIN_KEYPAIR_KEY), Err(r->Err_0))
                ||| !is_keypair(old(keystore).kept(MAIN_KEYPAIR_KEY@)) && exists|
                    store: &mut K,
                    secret: &[u8],
                |
                    *store == *old(keystore) && *final(store) == *final(keystore) && secret@.len()
                        == 32 && #[trigger] call_ensures(
                        K::put,
                        (store, MAIN_KEYPAIR_KEY, secret),
                        Err(r->Err_0),
                    )
            },
            r is Ok ==> r->Ok_0@ == fresh(r->Ok_0@.secret) && r->Ok_0@.secret.len() == 32,
            r is Ok && is_keypair(old(keystore).kept(MAIN_KEYPAIR_KEY@)) ==> old(keystore).kept(
                MAIN_KEYPAIR_KEY@,
            ) == Some(r->Ok_0@.secret),
            r is Ok ==> forall|k: Seq<char>|
                #[trigger] final(keystore).kept(k) == if k == MAIN_KEYPAIR_KEY@ {
                    Some(r->Ok_0@.secret)
                } else {
                    old(keystore).kept(k)
                },
    {
        match load_or_generate_keypair(keystore) {
            Ok(secret) => Ok(Self::with_secret(secret)),
            Err(e) => Err(e),
        }
    }

    /// A synchronizer with a key pair that trusts nobody.
    pub fn with_secret(secret: [u8; 32]) -> (r: KeySynchronizer)
        ensures
            r@ == fresh(secret@),
    {
        KeySynchronizer {
            secret,
            node_id: NodeId { bytes: crypto::public_key(&secret) },
            synchronized_keys: TextMap::new(),
            sync_status: TextMap::new(),
            sync_queue: Vec::new(),
            message_cache: TextMap::new(),
            statistics: SyncStatistics::default(),
            trusted_peers: IdMap::new(),
        }
    }

    /// The node.
    pub fn node_id(&self) -> (r: NodeId)
        ensures
            r@ == self@.node,
    {
        self.node_id
    }

    /// The secret key of the node.
    pub fn signing_key(&self) -> (r: &[u8; 32])
        ensures
            r@ == self@.secret,
    {
        &self.secret
    }

    /// Trusts a peer under a public key.
    pub fn add_trusted_peer(&mut self, node_id: NodeId, public_key: [u8; 32])
        ensures
            final(self)@ == (SynchronizerModel {
                trusted: old(self)@.trusted.insert(node_id@, public_key),
                ..old(self)@
            }),
    {
        self.trusted_peers.insert(node_id.bytes, public_key);
    }

    /// Trusts a peer no more; tells whether it was trusted.
    pub fn remove_trusted_peer(&mut self, node_id: &NodeId) -> (r: bool)
        ensures
            r == old(self)@.trusted.dom().contains(node_id@),
            final(self)@ == (SynchronizerModel {
                trusted: old(self)@.trusted.remove(node_id@),
                ..old(self)@
            }),
    {
        self.trusted_peers.remove(&node_id.bytes).is_some()
    }

    /// The trusted peers.
    pub fn list_trusted_peers(&self) -> (r: Vec<NodeId>)
        ensures
            lists(keys(r@), self@.trusted, |k: [u8; 32]| true),
    {
        let ghost any = |k: [u8; 32]| true;
        let chosen = |k: &[u8; 32]| -> (b: bool)
            ensures
                b,
            { true };
        let ids: Vec<[u8; 32]> = self.trusted_peers.listed(chosen, Ghost(any));
        node::of_ids(&ids)
    }

    /// What is known of a key. Of one that was not heard of, it is made from its data in
    /// the keystore.
    pub fn key_metadata_at(
        &self,
        key_id: &str,
        stored: Option<&Vec<u8>>,
        now: i64,
    ) -> (r: Result<KeyMetadata, GuardianError>)
        ensures
            match lookup(self@.known, key_id@) {
                Some(metadata) => r is Ok && r->Ok_0@ == metadata@,
                None => match stored {
                    Some(data) => r is Ok && r->Ok_0@ == first_metadata(
                        key_id@,
                        now,
                        self@.node,
                        data@,
                    ),
                    None => outcome(r) == Err::<KeyMetadata, Failure>(
                        Failure::Other("Key not found: "@ + key_id@),
                    ),
                },
            },
    {
        match self.synchronized_keys.get(key_id) {
            Some(metadata) => Ok(metadata.copy()),
            None => match stored {
                Some(data) => {
                    let digest: [u8; 32] = crypto::blake3(data.as_slice());
                    let signature: Vec<u8> = Vec::new();
                    assert(signature@ =~= Seq::<u8>::empty());
                    Ok(
                        KeyMetadata {
                            key_id: text::owned(key_id),
                            version: 1,
                            last_modified: now,
                            creator: self.node_id,
                            signature,
                            crypto_algorithm: text::owned("Ed25519"),
                            public_key_hash: crate::bytes::to_vec(&digest),
                        },
                    )
                },
                None => Err(GuardianError::Other(text::join2("Key not found: ", key_id))),
            },
        }
    }

    /// What is known of a key. Of one that was not heard of, it is made from its data in
    /// the keystore, as of now.
    pub fn get_key_metadata<K: Keystore>(&self, keystore: &K, key_id: &str) -> (r: Result<
        KeyMetadata,
        GuardianError,
    >)
        ensures
            match lookup(self@.known, key_id@) {
                Some(metadata) => r is Ok && r->Ok_0@ == metadata@,
                None => match keystore.kept(key_id@) {
                    Some(data) => r is Ok ==> r->Ok_0@ == first_metadata(
                        key_id@,
                        r->Ok_0@.last_modified,
                        self@.node,
                        data,
                    ),
                    None => r is Err,
                },
            },
            r is Err ==> nothing_told(self@, keystore, key_id, r->Err_0),
    {
        match self.synchronized_keys.get(key_id) {
            Some(metadata) => Ok(metadata.copy()),
            None => match keystore.get(key_id) {
                Err(e) => Err(e),
                Ok(stored) => match stored {
                    Some(data) => self.key_metadata_at(
                        key_id,
                        Some(&data),
                        clock::now_date_nanos(),
                    ),
                    None => self.key_metadata_at(key_id, None, 0),
                },
            },
        }
    }

    /// A message with an identifier and a time, not signed yet.
    pub fn sync_message_at(
        &self,
        operation: SyncOperation,
        metadata: KeyMetadata,
        key_data: Option<Vec<u8>>,
        message_id: [u8; 16],
        timestamp: u64,
    ) -> (r: SyncMessage)
        ensures
            r.message_id == message_id,
            r.protocol_version == SYNC_PROTOCOL_VERSION,
            r.timestamp == timestamp,
            r.sender@ == self@.node,
            r.operation == operation,
            r.metadata == metadata,
            r.key_data == key_data,
            r.message_signature@ == Seq::<u8>::empty(),
    {
        let r = SyncMessage {
            message_id,
            protocol_version: SYNC_PROTOCOL_VERSION,
            timestamp,
            sender: self.node_id,
            operation,
            metadata,
            key_data,
            message_signature: Vec::new(),
        };
        assert(r.message_signature@ =~= Seq::<u8>::empty());
        r
    }

    /// A signed message with an identifier of its own, as of now.
    pub fn create_sync_message(
        &self,
        operation: SyncOperation,
        metadata: KeyMetadata,
        key_data: Option<Vec<u8>>,
    ) -> (r: Result<SyncMessage, GuardianError>)
        ensures
            r is Ok,
            ({
                let message = r->Ok_0;
                &&& is_random_bytes(message.message_id@)
                &&& message.protocol_version == SYNC_PROTOCOL_VERSION
                &&& message.sender@ == self@.node
                &&& message.operation == operation
                &&& message.metadata == metadata
                &&& message.key_data == key_data
                &&& signed_by(self@.secret, message)
            }),
    {
        let message: SyncMessage = self.sync_message_at(
            operation,
            metadata,
            key_data,
            ids::random_id_bytes(),
            clock::now_nanos(),
        );
        self.sign_sync_message(message)
    }

    /// Signs a message.
    pub fn sign_sync_message(&self, message: SyncMessage) -> (r: Result<SyncMessage, GuardianError>)
        ensures
            r is Ok,
            r->Ok_0 == (SyncMessage { message_signature: r->Ok_0.message_signature, ..message }),
            signed_by(self@.secret, r->Ok_0),
    {
        match unsigned_bytes(&message) {
            Err(e) => Err(e),
            Ok(form) => {
                let signature: [u8; 64] = crypto::sign(&self.secret, form.as_slice());
                let mut r: SyncMessage = message;
                r.message_signature = crate::bytes::to_vec(&signature);
                Ok(r)
            },
        }
    }

    /// Checks that a message comes from a trusted peer: that its signature is valid under
    /// the key that the peer is trusted under.
    pub fn verify_message_signature(&self, message: &SyncMessage) -> (r: Result<(), GuardianError>)
        ensures
            signature_checked(self@.trusted, *message, outcome(r)),
    {
        match self.trusted_peers.get(&message.sender.bytes) {
            None => {
                let id: String = message.sender.render();
                Err(GuardianError::Other(text::join2("Untrusted peer: ", id.as_str())))
            },
            Some(key) => {
                let form: Vec<u8> = match unsigned_bytes(message) {
                    Ok(form) => form,
                    Err(e) => {
                        return Err(e);
                    },
                };
                match crypto::parse_signature(message.message_signature.as_slice()) {
                    Err(detail) => {
                        let words: String = text::join2("Invalid signature: ", detail.as_str());
                        assert(words@ == "Invalid signature: "@ + detail@);
                        Err(GuardianError::Other(words))
                    },
                    Ok(signature) => match crypto::verify(key, form.as_slice(), &signature) {
                        Ok(_) => Ok(()),
                        Err(detail) => {
                            let words: String = text::join2(
                                "Signature verification failed: ",
                                detail.as_str(),
                            );
                            assert(words@ == "Signature verification failed: "@ + detail@);
                            Err(GuardianError::Other(words))
                        },
                    },
                }
            },
        }
    }

    /// Whether a message is too old; one from the future is refused.
    pub fn is_message_too_old(&self, message: &SyncMessage, now: u64) -> (r: Result<
        bool,
        GuardianError,
    >)
        ensures
            outcome(r) == if message.timestamp > now {
                Err::<bool, Failure>(Failure::Other("Invalid timestamp"@))
            } else {
                Ok(too_old(message.timestamp, now))
            },
    {
        if message.timestamp > now {
            return Err(GuardianError::Other(text::owned("Invalid timestamp")));
        }
        Ok(now - message.timestamp > MAX_MESSAGE_AGE)
    }

    /// Whether a message was processed before.
    pub fn is_message_duplicate(&self, message: &SyncMessage) -> (r: bool)
        ensures
            r == lookup(self@.processed, hex_text(message.message_id@)) is Some,
    {
        let id: String = hexadecimal::encode(&message.message_id);
        self.message_cache.contains_key(id.as_str())
    }

    /// Checks a message that came in; tells whether it is to be processed. One that was
    /// processed before is not.
    pub fn screen(&self, message: &SyncMessage, now: u64) -> (r: Result<bool, GuardianError>)
        ensures
            screened(self@, *message, now, outcome(r)),
    {
        match self.is_message_too_old(message, now) {
            Err(e) => {
                return Err(e);
            },
            Ok(old_one) => {
                if old_one {
                    return Err(GuardianError::Other(text::owned("Message too old")));
                }
            },
        }
        if self.is_message_duplicate(message) {
            return Ok(false);
        }
        match self.verify_message_signature(message) {
            Err(e) => Err(e),
            Ok(_) => Ok(true),
        }
    }

    /// Decides what is to be done about a message. `is_stored` tells whether the keystore
    /// has the key.
    pub fn plan(&self, message: &SyncMessage, is_stored: bool) -> (r: Result<
        SyncPlan,
        GuardianError,
    >)
        ensures
            outcome(r) == sync_plan(
                self@.known,
                message.operation,
                message.metadata.key_id@,
                message.metadata.version,
                is_stored,
            ),
    {
        let version: u64 = match self.synchronized_keys.get(message.metadata.key_id.as_str()) {
            Some(metadata) => metadata.version,
            None => 1,
        };
        match message.operation {
            SyncOperation::Create => if is_stored && version >= message.metadata.version {
                Ok(SyncPlan::Skip)
            } else {
                Ok(SyncPlan::Store)
            },
            SyncOperation::Update => if !is_stored {
                Err(
                    GuardianError::Other(
                        text::join2("Key not found: ", message.metadata.key_id.as_str()),
                    ),
                )
            } else if version > message.metadata.version {
                Ok(SyncPlan::Conflict { local: version })
            } else {
                Ok(SyncPlan::Store)
            },
            SyncOperation::Delete => Ok(SyncPlan::Delete),
            SyncOperation::MetadataSync => Ok(SyncPlan::Metadata),
        }
    }
}

impl KeySynchronizer {
    /// Notes that a message was processed, once the keystore did what the plan asked for.
    pub fn apply(&mut self, message: SyncMessage, plan: SyncPlan, now: u64)
        requires
            old(self)@.statistics.messages_synced < u64::MAX,
        ensures
            applied(old(self)@, message, plan, now, final(self)@),
    {
        let key_id: String = message.metadata.key_id.clone();
        match plan {
            SyncPlan::Store => {
                self.sync_status.insert(key_id.clone(), KeySyncStatus::Synchronized);
                self.synchronized_keys.insert(key_id, message.metadata);
            },
            SyncPlan::Metadata => {
                self.synchronized_keys.insert(key_id, message.metadata);
            },
            SyncPlan::Delete => {
                let _ = self.synchronized_keys.remove(key_id.as_str());
                let _ = self.sync_status.remove(key_id.as_str());
            },
            SyncPlan::Conflict { local } => {
                let mine: String = text::decimal(local);
                let other: String = text::decimal(message.metadata.version);
                let mut words: String = text::join3("Local: v", mine.as_str(), ", Remote: v");
                words.append(other.as_str());
                self.sync_status.insert(key_id, KeySyncStatus::Conflict(words));
            },
            SyncPlan::Skip => {},
        }
        let id: String = hexadecimal::encode(&message.message_id);
        self.cache_processed_message(id, now);
        self.update_statistics();
    }

    /// Takes in that one more message was processed.
    fn update_statistics(&mut self)
        requires
            old(self)@.statistics.messages_synced < u64::MAX,
        ensures
            final(self)@ == (SynchronizerModel {
                statistics: statistics_after(
                    old(self)@.statistics,
                    old(self)@.queue,
                    old(self)@.trusted,
                    old(self)@.status,
                ),
                ..old(self)@
            }),
    {
        let synchronized: usize = self.count_synchronized();
        let peers: usize = self.trusted_peers.len();
        self.statistics = SyncStatistics {
            messages_synced: self.statistics.messages_synced + 1,
            pending_messages: self.sync_queue.len() as u64,
            active_peers: #[verifier::truncate]
            (peers as u32),
            total_keys: self.sync_status.len() as u64,
            synchronized_keys: synchronized as u64,
            conflicts_detected: self.statistics.conflicts_detected,
            conflicts_resolved: self.statistics.conflicts_resolved,
        };
    }

    /// The number of keys that are alike.
    fn count_synchronized(&self) -> (r: usize)
        ensures
            r == kept_where(self@.status, |s: KeySyncStatus| s@ is Synchronized).len(),
    {
        let ghost status = self.sync_status@;
        let ghost alike = |s: KeySyncStatus| s@ is Synchronized;
        let mut synchronized: usize = 0;
        let mut i: usize = 0;
        assert(status.take(0) =~= Seq::empty());
        while i < self.sync_status.len()
            invariant
                i <= self.sync_status@.len(),
                status == self.sync_status@,
                alike == (|s: KeySyncStatus| s@ is Synchronized),
                synchronized <= i,
                synchronized == kept_where(status.take(i as int), alike).len(),
            decreases self.sync_status@.len() - i,
        {
            assert(status.take(i + 1).drop_last() =~= status.take(i as int));
            match self.sync_status.value_at(i) {
                KeySyncStatus::Synchronized => {
                    synchronized += 1;
                },
                _ => {},
            }
            i += 1;
        }
        assert(status.take(i as int) =~= status);
        synchronized
    }

    /// Processes a message that came in: checks it, lets the keystore do what it asks for,
    /// and notes that it was processed. A message that was processed before is passed over;
    /// a message that is refused changes nothing, nor does one at which the keystore fails.
    /// A message that passed the checks fails only where the plan is an error, or with the
    /// keystore's own error in what the plan asks it for.
    pub fn handle_sync_message<K: Keystore>(
        &mut self,
        keystore: &mut K,
        message: SyncMessage,
        now: u64,
    ) -> (r: Result<(), GuardianError>)
        requires
            old(self)@.statistics.messages_synced < u64::MAX,
        ensures
            ({
                let key_id = message.metadata.key_id@;
                let plan = sync_plan(
                    old(self)@.known,
                    message.operation,
                    key_id,
                    message.metadata.version,
                    old(keystore).kept(key_id) is Some,
                );
                exists|screen: Result<bool, Failure>|
                    #[trigger] screened(old(self)@, message, now, screen) && match screen {
                        Err(failure) => outcome(r) == Err::<(), Failure>(failure),
                        Ok(new) => if !new {
                            r is Ok && final(self)@ == old(self)@
                        } else {
                            &&& r is Ok ==> plan is Ok && applied(
                                old(self)@,
                                message,
                                plan->Ok_0,
                                now,
                                final(self)@,
                            )
                            &&& r is Err ==> {
                                ||| plan is Err && r->Err_0@ == plan->Err_0
                                ||| (message.operation is Create || message.operation is Update)
                                    && exists|key: &str|
                                    key@ == key_id && #[trigger] call_ensures(
                                        K::has,
                                        (&*old(keystore), key),
                                        Err(r->Err_0),
                                    )
                                ||| plan == Ok::<SyncPlan, Failure>(SyncPlan::Store)
                                    && message.key_data is Some && exists|
                                    store: &mut K,
                                    key: &str,
                                    data: &[u8],
                                |
                                    *store == *old(keystore) && *final(store) == *final(keystore)
                                        && key@ == key_id && data@ == message.key_data->0@
                                        && #[trigger] call_ensures(
                                        K::put,
                                        (store, key, data),
                                        Err(r->Err_0),
                                    )
                                ||| plan == Ok::<SyncPlan, Failure>(SyncPlan::Delete) && exists|
                                    store: &mut K,
                                    key: &str,
                                |
                                    *store == *old(keystore) && *final(store) == *final(keystore)
                                        && key@ == key_id && #[trigger] call_ensures(
                                        K::delete,
                                        (store, key),
                                        Err(r->Err_0),
                                    )
                            }
                            &&& message.operation is MetadataSync ==> r is Ok
                        },
                    } && forall|k: Seq<char>|
                        #[trigger] final(keystore).kept(k) == stored_after(
                            old(keystore).kept(k),
                            k == key_id && screen == Ok::<bool, Failure>(true) && r is Ok,
                            optional_bytes(message.key_data),
                            plan->Ok_0,
                        )
            }),
            r is Err ==> final(self)@ == old(self)@,
    {
        let checked: Result<bool, GuardianError> = self.screen(&message, now);
        assert(screened(self@, message, now, outcome(checked)));
        match checked {
            Err(e) => {
                return Err(e);
            },
            Ok(new) => {
                if !new {
                    return Ok(());
                }
            },
        }
        let is_stored: bool = match message.operation {
            SyncOperation::Create | SyncOperation::Update => match keystore.has(
                message.metadata.key_id.as_str(),
            ) {
                Ok(is_stored) => is_stored,
                Err(e) => {
                    return Err(e);
                },
            },
            _ => false,
        };
        let plan: SyncPlan = match self.plan(&message, is_stored) {
            Ok(plan) => plan,
            Err(e) => {
                return Err(e);
            },
        };
        match plan {
            SyncPlan::Store => match &message.key_data {
                Some(data) => match keystore.put(
                    message.metadata.key_id.as_str(),
                    data.as_slice(),
                ) {
                    Ok(_) => {},
                    Err(e) => {
                        return Err(e);
                    },
                },
                None => {},
            },
            SyncPlan::Delete => match keystore.delete(message.metadata.key_id.as_str()) {
                Ok(_) => {},
                Err(e) => {
                    return Err(e);
                },
            },
            _ => {},
        }
        self.apply(message, plan, now);
        Ok(())
    }

    /// Remembers a message as processed, and forgets those that are too old to be accepted.
    fn cache_processed_message(&mut self, message_id: String, now: u64)
        ensures
            final(self)@ == (SynchronizerModel {
                processed: kept_where(
                    with_entry(old(self)@.processed, message_id@, now),
                    remembered(now),
                ),
                ..old(self)@
            }),
    {
        self.message_cache.insert(message_id, now);
        let ghost before = self.message_cache@;
        let mut flags: Vec<bool> = Vec::new();
        let mut i: usize = 0;
        while i < self.message_cache.len()
            invariant
                i <= self.message_cache@.len(),
                before == self.message_cache@,
                flags@.len() == i,
                forall|j: int|
                    0 <= j < i ==> #[trigger] flags@[j] == remembered(now)(before[j].1),
            decreases self.message_cache@.len() - i,
        {
            let at: u64 = *self.message_cache.value_at(i);
            flags.push(at > now || now - at < MAX_MESSAGE_AGE);
            i += 1;
        }
        proof {
            lemma_flagged(before, flags@, remembered(now));
        }
        self.message_cache.retain(&flags);
    }

    /// Queues a message to be sent; the oldest gives way if there are too many.
    pub fn enqueue_sync_message(&mut self, message: SyncMessage)
        ensures
            final(self)@ == (SynchronizerModel {
                queue: enqueued(old(self)@.queue, message),
                ..old(self)@
            }),
    {
        if self.sync_queue.len() >= MAX_SYNC_QUEUE_SIZE {
            let ghost before = self.sync_queue@;
            let _ = self.sync_queue.remove(0);
            assert(self.sync_queue@ =~= before.skip(1));
        }
        self.sync_queue.push(message);
    }

    /// Notes the status of a key.
    pub fn update_sync_status(&mut self, key_id: &str, status: KeySyncStatus)
        ensures
            final(self)@ == (SynchronizerModel {
                status: with_entry(old(self)@.status, key_id@, status),
                ..old(self)@
            }),
    {
        self.sync_status.insert(text::owned(key_id), status);
    }

    /// Queues a signed message about a key, which is then being synchronized. It fails only
    /// where nothing can be told of the key.
    pub fn sync_key<K: Keystore>(
        &mut self,
        keystore: &K,
        key_id: &str,
        operation: SyncOperation,
    ) -> (r: Result<(), GuardianError>)
        ensures
            r is Err ==> final(self)@ == old(self)@,
            r is Ok ==> exists|message: SyncMessage|
                is_sync_of(old(self)@, keystore.kept(key_id@), key_id@, operation, message)
                    && final(self)@ == (SynchronizerModel {
                    queue: #[trigger] enqueued(old(self)@.queue, message),
                    status: with_entry(old(self)@.status, key_id@, KeySyncStatus::Synchronizing),
                    ..old(self)@
                }),
            lookup(old(self)@.known, key_id@) is None && keystore.kept(key_id@) is None ==> r is Err,
            r is Err ==> nothing_told(old(self)@, keystore, key_id, r->Err_0),
    {
        let metadata: KeyMetadata = match self.get_key_metadata(keystore, key_id) {
            Ok(metadata) => metadata,
            Err(e) => {
                return Err(e);
            },
        };
        let message: SyncMessage = match self.create_sync_message(operation, metadata, None) {
            Ok(message) => message,
            Err(e) => {
                return Err(e);
            },
        };
        assert(is_sync_of(self@, keystore.kept(key_id@), key_id@, operation, message));
        let ghost queued = enqueued(self@.queue, message);
        self.enqueue_sync_message(message);
        self.update_sync_status(key_id, KeySyncStatus::Synchronizing);
        assert(self@.queue == queued);
        Ok(())
    }

    /// Queues a message about each of the keys that the keystore lists, as far as the first
    /// one that fails.
    pub fn force_full_sync<K: Keystore>(&mut self, keystore: &K, keys: &Vec<String>) -> (r: Result<
        (),
        GuardianError,
    >)
        ensures
            exists|done: nat, messages: Seq<SyncMessage>|
                done <= keys@.len() && (r is Ok ==> done == keys@.len()) && (r is Err ==> done
                    < keys@.len() && exists|key_id: &str|
                    key_id@ == keys@[done as int]@ && #[trigger] nothing_told(
                        old(self)@,
                        keystore,
                        key_id,
                        r->Err_0,
                    )) && #[trigger] all_queued(
                    old(self)@,
                    *keystore,
                    texts(keys@).take(done as int),
                    messages,
                    final(self)@,
                ),
    {
        let ghost before = self@;
        let ghost mut messages: Seq<SyncMessage> = Seq::empty();
        let mut i: usize = 0;
        assert(all_queued(before, *keystore, texts(keys@).take(0), messages, self@));
        while i < keys.len()
            invariant
                i <= keys@.len(),
                before == old(self)@,
                self@.known == before.known,
                all_queued(before, *keystore, texts(keys@).take(i as int), messages, self@),
            decreases keys@.len() - i,
        {
            let ghost now = self@;
            let ghost key_id = keys@[i as int]@;
            let ghost sent = messages;
            let key: &str = keys[i].as_str();
            match self.sync_key(keystore, key, SyncOperation::MetadataSync) {
                Err(e) => {
                    assert(all_queued(
                        before,
                        *keystore,
                        texts(keys@).take((i as nat) as int),
                        messages,
                        self@,
                    ));
                    assert(nothing_told(before, keystore, key, e));
                    return Err(e);
                },
                Ok(_) => {},
            }
            proof {
                let message = choose|message: SyncMessage|
                    is_sync_of(
                        now,
                        keystore.kept(key_id),
                        key_id,
                        SyncOperation::MetadataSync,
                        message,
                    ) && self@ == (SynchronizerModel {
                        queue: #[trigger] enqueued(now.queue, message),
                        status: with_entry(now.status, key_id, KeySyncStatus::Synchronizing),
                        ..now
                    });
                messages = sent.push(message);
                let taken = texts(keys@).take(i + 1);
                assert(taken.drop_last() =~= texts(keys@).take(i as int));
                assert(taken.last() == key_id);
                assert(messages.drop_last() =~= sent);
                assert(messages.last() == message);
                assert(messages.len() == taken.len());
                assert(one_queued(now, keystore.kept(key_id), key_id, message, self@));
                assert(all_queued(before, *keystore, taken, messages, self@));
            }
            i += 1;
        }
        assert(all_queued(
            before,
            *keystore,
            texts(keys@).take((i as nat) as int),
            messages,
            self@,
        ));
        Ok(())
    }

    /// How many messages were processed, and how matters stood when the last one was.
    pub fn get_statistics(&self) -> (r: SyncStatistics)
        ensures
            r == self@.statistics,
    {
        self.statistics
    }

    /// The status of a key.
    pub fn get_key_sync_status(&self, key_id: &str) -> (r: Option<&KeySyncStatus>)
        ensures
            match lookup(self@.status, key_id@) {
                Some(status) => r == Some(&status),
                None => r is None,
            },
    {
        self.sync_status.get(key_id)
    }

    /// What is known of a key.
    pub fn known_key(&self, key_id: &str) -> (r: Option<&KeyMetadata>)
        ensures
            match lookup(self@.known, key_id@) {
                Some(metadata) => r == Some(&metadata),
                None => r is None,
            },
    {
        self.synchronized_keys.get(key_id)
    }

    /// The public key under which a peer is trusted.
    pub fn trusted_key(&self, node_id: &NodeId) -> (r: Option<[u8; 32]>)
        ensures
            match r {
                Some(key) => self@.trusted.dom().contains(node_id@) && key
                    == self@.trusted[node_id@],
                None => !self@.trusted.dom().contains(node_id@),
            },
    {
        match self.trusted_peers.get(&node_id.bytes) {
            Some(key) => Some(*key),
            None => None,
        }
    }

    /// The keys of which something is known, in order.
    pub fn list_synchronized_keys(&self) -> (r: Vec<String>)
        ensures
            texts(r@) == self@.known.map_values(|e: (Seq<char>, KeyMetadata)| e.0),
    {
        let mut out: Vec<String> = Vec::new();
        let mut i: usize = 0;
        while i < self.synchronized_keys.len()
            invariant
                i <= self.synchronized_keys@.len(),
                out@.len() == i,
                forall|j: int|
                    0 <= j < i ==> (#[trigger] out@[j])@ == self.synchronized_keys@[j].0,
            decreases self.synchronized_keys@.len() - i,
        {
            out.push(self.synchronized_keys.key_at(i).clone());
            i += 1;
        }
        assert(texts(out@) =~= self@.known.map_values(|e: (Seq<char>, KeyMetadata)| e.0));
        out
    }
}

/// A message that a node signed is accepted by whoever trusts the node under its own key.
pub proof fn lemma_signed_is_accepted(
    secret: Seq<u8>,
    trusted: Map<Seq<u8>, [u8; 32]>,
    message: SyncMessage,
    r: Result<(), Failure>,
)
    requires
        signed_by(secret, message),
        trusted.dom().contains(message.sender@),
        trusted[message.sender@]@ == ed25519_public(secret),
        signature_checked(trusted, message, r),
    ensures
        r is Ok,
{
}

/// Nothing is accepted from a node that is not trusted.
pub proof fn lemma_untrusted_is_refused(
    m: SynchronizerModel,
    message: SyncMessage,
    now: u64,
    r: Result<bool, Failure>,
)
    requires
        !m.trusted.dom().contains(message.sender@),
        screened(m, message, now, r),
    ensures
        r != Ok::<bool, Failure>(true),
{
}

/// The messages that are remembered once more of them were processed, at some times.
pub open spec fn processed_after(
    processed: Seq<(Seq<char>, u64)>,
    more: Seq<(Seq<char>, u64)>,
) -> Seq<(Seq<char>, u64)>
    decreases more.len(),
{
    if more.len() == 0 {
        processed
    } else {
        let before = processed_after(processed, more.drop_last());
        kept_where(with_entry(before, more.last().0, more.last().1), remembered(more.last().1))
    }
}

/// A message that was processed is never processed again, whatever else was processed in
/// the meantime: for as long as it is remembered it is a duplicate, and once it is forgotten
/// it is too old. It must have been sent before the instant at which it was processed, and
/// time must not go back.
pub proof fn lemma_no_replay(
    processed: Seq<(Seq<char>, u64)>,
    message_id: Seq<char>,
    timestamp: u64,
    more: Seq<(Seq<char>, u64)>,
    now: u64,
)
    requires
        crate::entries::keys_ordered(processed),
        lookup(processed, message_id) matches Some(at) && timestamp < at,
        forall|i: int| 0 <= i < more.len() ==> timestamp < (#[trigger] more[i]).1 <= now,
        forall|i: int, j: int| 0 <= i <= j < more.len() ==> (#[trigger] more[i]).1 <= (
        #[trigger] more[j]).1,
    ensures
        crate::entries::keys_ordered(processed_after(processed, more)),
        lookup(processed_after(processed, more), message_id) is Some || too_old(timestamp, now),
        lookup(processed_after(processed, more), message_id) matches Some(at) ==> timestamp < at,
    decreases more.len(),
{
    if more.len() > 0 {
        let front = more.drop_last();
        let t = more.last().1;
        assert forall|i: int| 0 <= i < front.len() implies timestamp < (#[trigger] front[i]).1
            <= t by {
            assert(front[i] == more[i]);
            assert(more[i].1 <= more[more.len() - 1].1);
        }
        assert forall|i: int, j: int| 0 <= i <= j < front.len() implies (#[trigger] front[i]).1 <= (
        #[trigger] front[j]).1 by {
            assert(front[i] == more[i] && front[j] == more[j]);
        }
        lemma_no_replay(processed, message_id, timestamp, front, t);
        lemma_processed_is_remembered(
            processed_after(processed, front),
            more.last().0,
            t,
            message_id,
        );
    }
}

/// A message that was just processed is remembered, and others only if they were before.
pub proof fn lemma_processed_is_remembered(
    processed: Seq<(Seq<char>, u64)>,
    message_id: Seq<char>,
    now: u64,
    other: Seq<char>,
)
    requires
        crate::entries::keys_ordered(processed),
    ensures
        ({
            let after = kept_where(with_entry(processed, message_id, now), remembered(now));
            &&& lookup(after, message_id) == Some(now)
            &&& other != message_id ==> lookup(after, other) == match lookup(processed, other) {
                Some(at) => if remembered(now)(at) {
                    Some(at)
                } else {
                    None
                },
                None => None,
            }
            &&& crate::entries::keys_ordered(after)
        }),
{
    let all = with_entry(processed, message_id, now);
    crate::entries::lemma_with_entry_ordered(processed, message_id, now);
    crate::entries::lemma_lookup_with_entry(processed, message_id, now, message_id);
    crate::entries::lemma_lookup_with_entry(processed, message_id, now, other);
    crate::entries::lemma_lookup_kept(all, remembered(now), message_id);
    crate::entries::lemma_lookup_kept(all, remembered(now), other);
}

/// A create or an update never takes a key back to an earlier version.
pub proof fn lemma_versions_never_go_back(
    known: Seq<(Seq<char>, KeyMetadata)>,
    metadata: KeyMetadata,
    operation: SyncOperation,
)
    requires
        operation is Create || operation is Update,
        lookup(known, metadata.key_id@) is Some,
        sync_plan(known, operation, metadata.key_id@, metadata.version, true) is Ok,
    ensures
        ({
            let plan = sync_plan(
                known,
                operation,
                metadata.key_id@,
                metadata.version,
                true,
            )->Ok_0;
            known_version(known_after(known, metadata, plan), metadata.key_id@) >= known_version(
                known,
                metadata.key_id@,
            )
        }),
{
    crate::entries::lemma_lookup_with_entry(
        known,
        metadata.key_id@,
        metadata,
        metadata.key_id@,
    );
}

/// No more messages ever wait than may, and the one that was queued last waits.
pub proof fn lemma_queue_is_bounded(queue: Seq<SyncMessage>, message: SyncMessage)
    requires
        queue.len() <= MAX_SYNC_QUEUE_SIZE,
    ensures
        enqueued(queue, message).len() <= MAX_SYNC_QUEUE_SIZE,
        enqueued(queue, message).last() == message,
{
}

} // verus!
