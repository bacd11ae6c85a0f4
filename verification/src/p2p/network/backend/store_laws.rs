//! How content is added, fetched, listed and let go, and what is counted of the network.
use crate::error::GuardianError;
use crate::hash::ContentHash;
use crate::hexadecimal::{hex_decoded, hex_text, lemma_hex_round_trip};
use crate::p2p::network::backend::blobs::{readable, BlobStore, DownloadProgress, FetchAction};
use crate::p2p::network::backend::docs::{AuthorStep, WillowDocs};
use crate::p2p::network::backend::networking_metrics::NetworkingMetricsCollector;
use crate::p2p::node::NodeId;
use vstd::prelude::*;

verus! {

/// What could be read is what was read without error, in order.
proof fn lemma_readable<T>(listed: Seq<Result<T, String>>)
    ensures
        readable(listed) == listed.filter(|item: Result<T, String>| item is Ok).map_values(
            |item: Result<T, String>| item->Ok_0,
        ),
    decreases listed.len(),
{
    reveal(Seq::filter);
    let keep = |item: Result<T, String>| item is Ok;
    let inner = |item: Result<T, String>| item->Ok_0;
    if listed.len() > 0 {
        lemma_readable(listed.drop_last());
        let before = listed.drop_last().filter(keep);
        assert(before.push(listed.last()).map_values(inner) =~= before.map_values(inner).push(
            inner(listed.last()),
        ));
    } else {
        assert(listed.filter(keep).map_values(inner) =~= Seq::empty());
    }
}

/// The documents that are listed are those whose tags could be read, in order, each of size
/// zero.
pub proof fn lemma_listed_documents(
    tags: Result<Vec<Result<ContentHash, String>>, String>,
    r: Result<Vec<(ContentHash, u64)>, GuardianError>,
)
    requires
        call_ensures(BlobStore::list_documents, (tags,), r),
    ensures
        r is Ok <==> tags is Ok,
        tags is Ok ==> r->Ok_0@.map_values(|d: (ContentHash, u64)| d.0) == tags->Ok_0@.filter(
            |item: Result<ContentHash, String>| item is Ok,
        ).map_values(|item: Result<ContentHash, String>| item->Ok_0),
{
    if tags is Ok {
        lemma_readable(tags->Ok_0@);
        let hashes = readable(tags->Ok_0@);
        assert(r->Ok_0@.map_values(|d: (ContentHash, u64)| d.0) =~= hashes);
    }
}

/// Content that was added is tagged by its hash, so that the tag tells it; the tag that is
/// deleted is the same.
pub proof fn lemma_document_tags(
    added: Result<ContentHash, String>,
    r: Result<(ContentHash, String), GuardianError>,
    deleted: String,
)
    requires
        call_ensures(BlobStore::add_document, (added,), r),
        r is Ok ==> call_ensures(BlobStore::delete_document, (&r->Ok_0.0,), deleted),
    ensures
        r is Ok <==> added is Ok,
        r is Ok ==> r->Ok_0.0 == added->Ok_0,
        r is Ok ==> r->Ok_0.1@.take(4) == "doc_"@ && hex_decoded(r->Ok_0.1@.skip(4)) == Some(
            added->Ok_0.bytes@,
        ),
        r is Ok ==> deleted@ == r->Ok_0.1@,
{
    if r is Ok {
        reveal_strlit("doc_");
        let hash = added->Ok_0@;
        lemma_hex_round_trip(hash);
        let tag = r->Ok_0.1@;
        assert(tag.take(4) =~= "doc_"@);
        assert(tag.skip(4) =~= hex_text(hash));
    }
}

/// Content that the store has is given as it is. What it has not is downloaded where there is a
/// network and somebody to ask, and is an error otherwise.
pub proof fn lemma_fetching(
    store: &BlobStore,
    read: Result<Vec<u8>, String>,
    providers: &Vec<NodeId>,
    r: FetchAction,
)
    requires
        call_ensures(BlobStore::found_locally, (store, read, providers), r),
    ensures
        read is Ok ==> r is Done && r->Done_data == read->Ok_0,
        read is Err && store.networked() && providers@.len() > 0 ==> r is Download
            && r->providers@ == providers@,
        read is Err && !(store.networked() && providers@.len() > 0) ==> r is Failed,
{
}

/// Content that was downloaded is read and tagged, and is given as it was read.
pub proof fn lemma_fetched(hash: &ContentHash, read: Result<Vec<u8>, String>, r: FetchAction)
    requires
        call_ensures(BlobStore::found_after_download, (hash, read), r),
    ensures
        read is Ok ==> r is Tag && r->Tag_data == read->Ok_0 && hex_decoded(r->tag@.skip(4))
            == Some(hash.bytes@),
        read is Err ==> r is Failed,
{
    if read is Ok {
        reveal_strlit("doc_");
        lemma_hex_round_trip(hash@);
        assert(r->tag@.skip(4) =~= hex_text(hash@));
    }
}

/// A download goes on unless it reports an error.
pub proof fn lemma_download(report: DownloadProgress, r: Result<(), GuardianError>)
    requires
        call_ensures(BlobStore::progress, (report,), r),
    ensures
        r is Ok <==> report is Continues,
{
}

/// The entries that a query found are those that could be read, in order.
pub proof fn lemma_entries_found<D>(
    found: Result<Vec<Result<D, String>>, String>,
    r: Result<Vec<D>, GuardianError>,
)
    requires
        call_ensures(WillowDocs::get_many::<D>, (found,), r),
    ensures
        r is Ok <==> found is Ok,
        found is Ok ==> r->Ok_0@ == found->Ok_0@.filter(
            |item: Result<D, String>| item is Ok,
        ).map_values(|item: Result<D, String>| item->Ok_0),
{
    if found is Ok {
        lemma_readable(found->Ok_0@);
    }
}

/// An author that writes is asked for no more; the default author of the store writes where
/// there is one, and else one that is created.
pub proof fn lemma_author(
    docs: &mut WillowDocs,
    found: Option<[u8; 32]>,
    r: AuthorStep,
    later: &WillowDocs,
    then: AuthorStep,
)
    requires
        call_ensures(WillowDocs::found_default, (docs, found), r),
        later.author() == final(docs).author(),
        call_ensures(WillowDocs::get_or_init_author, (later,), then),
    ensures
        found is Some ==> r == AuthorStep::Done(found->0) && then == AuthorStep::Done(found->0),
        found is None ==> r is Create,
        found is None && old(docs).author() is None ==> then is AskDefault,
{
}

/// Adding content is counted, and the time that it took is the last of at most a hundred that
/// are kept; nothing else changes.
pub proof fn lemma_counted_add(metrics: &mut NetworkingMetricsCollector, duration: u64)
    requires
        call_ensures(NetworkingMetricsCollector::record_add_operation, (metrics, duration), ()),
        old(metrics).counters.add_operations < u64::MAX,
    ensures
        final(metrics).counters.add_operations == old(metrics).counters.add_operations + 1,
        final(metrics).counters.cat_operations == old(metrics).counters.cat_operations,
        final(metrics).samples@.add_operation_times == if old(metrics).samples@.add_operation_times.len() < 100 {
            old(metrics).samples@.add_operation_times.push(duration)
        } else {
            old(metrics).samples@.add_operation_times.skip(1).push(duration)
        },
        final(metrics).samples@.cat_operation_times == old(metrics).samples@.cat_operation_times,
        final(metrics).samples@.peer_latencies == old(metrics).samples@.peer_latencies,
{
    let times = old(metrics).samples@.add_operation_times;
    if times.len() >= 100 {
        assert(times.push(duration).skip(1) =~= times.skip(1).push(duration));
    }
}

/// Reading content is counted in the same way.
pub proof fn lemma_counted_cat(metrics: &mut NetworkingMetricsCollector, duration: u64)
    requires
        call_ensures(NetworkingMetricsCollector::record_cat_operation, (metrics, duration), ()),
        old(metrics).counters.cat_operations < u64::MAX,
    ensures
        final(metrics).counters.cat_operations == old(metrics).counters.cat_operations + 1,
        final(metrics).counters.add_operations == old(metrics).counters.add_operations,
        final(metrics).samples@.cat_operation_times == if old(metrics).samples@.cat_operation_times.len() < 100 {
            old(metrics).samples@.cat_operation_times.push(duration)
        } else {
            old(metrics).samples@.cat_operation_times.skip(1).push(duration)
        },
        final(metrics).samples@.add_operation_times == old(metrics).samples@.add_operation_times,
{
    let times = old(metrics).samples@.cat_operation_times;
    if times.len() >= 100 {
        assert(times.push(duration).skip(1) =~= times.skip(1).push(duration));
    }
}

/// A search for a peer is counted, and so is its success.
pub proof fn lemma_counted_discovery(
    metrics: &mut NetworkingMetricsCollector,
    duration: u64,
    successful: bool,
)
    requires
        call_ensures(
            NetworkingMetricsCollector::record_discovery,
            (metrics, duration, successful),
            (),
        ),
        old(metrics).counters.discovery_attempts < u64::MAX,
        old(metrics).counters.successful_discoveries < u64::MAX,
    ensures
        final(metrics).counters.discovery_attempts == old(metrics).counters.discovery_attempts + 1,
        final(metrics).counters.successful_discoveries == old(metrics).counters.successful_discoveries + if successful {
            1int
        } else {
            0
        },
        final(metrics).samples@.discovery_times.len() > 0,
        final(metrics).samples@.discovery_times.last() == duration,
{
}

/// Messages and connections are counted, each by its own count.
pub proof fn lemma_counted_messages(
    sending: &mut NetworkingMetricsCollector,
    receiving: &mut NetworkingMetricsCollector,
    connecting: &mut NetworkingMetricsCollector,
    disconnecting: &mut NetworkingMetricsCollector,
    latency: Option<u64>,
)
    requires
        call_ensures(NetworkingMetricsCollector::record_message_sent, (sending,), ()),
        call_ensures(
            NetworkingMetricsCollector::record_message_received,
            (receiving, latency),
            (),
        ),
        call_ensures(
            NetworkingMetricsCollector::record_peer_connected,
            (connecting, latency),
            (),
        ),
        call_ensures(NetworkingMetricsCollector::record_peer_disconnected, (disconnecting,), ()),
        old(sending).counters.messages_sent < u64::MAX,
        old(receiving).counters.messages_received < u64::MAX,
        old(connecting).counters.connections_total < u64::MAX,
        old(disconnecting).counters.disconnections_total < u64::MAX,
    ensures
        final(sending).counters.messages_sent == old(sending).counters.messages_sent + 1,
        final(sending).counters.messages_received == old(sending).counters.messages_received,
        final(receiving).counters.messages_received == old(receiving).counters.messages_received
            + 1,
        final(receiving).counters.messages_sent == old(receiving).counters.messages_sent,
        final(connecting).counters.connections_total == old(connecting).counters.connections_total
            + 1,
        final(connecting).counters.disconnections_total == old(connecting).counters.disconnections_total,
        final(disconnecting).counters.disconnections_total == old(disconnecting).counters.disconnections_total + 1,
        final(disconnecting).counters.connections_total == old(disconnecting).counters.connections_total,
        latency is Some ==> final(connecting).samples@.peer_latencies.len() > 0 && final(connecting).samples@.peer_latencies.last() == latency->0,
        latency is None ==> final(connecting).samples@.peer_latencies == old(connecting).samples@.peer_latencies,
{
}

/// What is shown is what was counted when it was last brought up to date.
pub proof fn lemma_shown_metrics(metrics: &mut NetworkingMetricsCollector, now: u64)
    requires
        call_ensures(
            NetworkingMetricsCollector::update_computed_metrics_at,
            (metrics, now),
            (),
        ),
    ensures
        final(metrics).metrics.counters == old(metrics).counters,
        final(metrics).metrics.last_updated == now,
        final(metrics).counters == old(metrics).counters,
{
}

} // verus!
