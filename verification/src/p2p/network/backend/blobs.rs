//! Documents in the store of contents, and where they are fetched from.
use crate::error::{outcome, Failure, GuardianError};
use crate::hash::ContentHash;
use crate::hexadecimal;
use crate::hexadecimal::hex_text;
use crate::p2p::node;
use crate::p2p::node::NodeId;
use crate::text;
use vstd::prelude::*;

verus! {

/// What the tags of documents begin with.
pub const DOCUMENT_PREFIX: &'static str = "doc_";

/// The tag that keeps a document from being collected.
pub open spec fn document_tag(hash: Seq<u8>) -> Seq<char> {
    "doc_"@ + hex_text(hash)
}

/// The tag that keeps a document from being collected.
pub fn tag_of(hash: &ContentHash) -> (r: String)
    ensures
        r@ == document_tag(hash@),
{
    let digits: String = hash.hash_to_string();
    text::join2(DOCUMENT_PREFIX, digits.as_str())
}

/// Different documents have different tags.
pub proof fn lemma_tags_differ(a: ContentHash, b: ContentHash)
    requires
        document_tag(a@) == document_tag(b@),
    ensures
        a@ == b@,
{
    let n = "doc_"@.len() as int;
    assert(document_tag(a@).skip(n) =~= hex_text(a@));
    assert(document_tag(b@).skip(n) =~= hex_text(b@));
    hexadecimal::lemma_hex_round_trip(a@);
    hexadecimal::lemma_hex_round_trip(b@);
}

/// What could be read of what was listed, in order.
pub open spec fn readable<T>(listed: Seq<Result<T, String>>) -> Seq<T>
    decreases listed.len(),
{
    if listed.len() == 0 {
        Seq::empty()
    } else {
        match listed.last() {
            Ok(item) => readable(listed.drop_last()).push(item),
            Err(_) => readable(listed.drop_last()),
        }
    }
}

/// What a download reports.
#[derive(Debug)]
pub enum DownloadProgress {
    /// It failed for a reason.
    Error(String),
    /// It failed.
    DownloadError,
    /// A part is complete, or bytes came in.
    Continues,
}

/// What the store and the network are asked to do so that a document is got.
#[derive(Debug)]
pub enum FetchAction {
    /// Download it from providers.
    Download { providers: Vec<NodeId> },
    /// Read it from the store.
    Read,
    /// Set its tag; whether that succeeds does not matter.
    Tag { tag: String, data: Vec<u8> },
    /// Here it is.
    Done { data: Vec<u8> },
    /// It could not be got.
    Failed(GuardianError),
}

/// Documents in a store, with or without a network to fetch them from.
#[derive(Debug)]
pub struct BlobStore {
    has_endpoint: bool,
}

impl BlobStore {
    /// Whether documents can be fetched from the network.
    pub closed spec fn networked(self) -> bool {
        self.has_endpoint
    }

    /// A store without a network.
    pub fn new() -> (r: BlobStore)
        ensures
            !r.networked(),
    {
        BlobStore { has_endpoint: false }
    }

    /// A store with a network.
    pub fn new_with_endpoint() -> (r: BlobStore)
        ensures
            r.networked(),
    {
        BlobStore { has_endpoint: true }
    }

    /// Whether documents can be fetched from the network.
    pub fn has_p2p_support(&self) -> (r: bool)
        ensures
            r == self.networked(),
    {
        self.has_endpoint
    }

    /// What is to be done once content was handed to the store: its tag is to be set. Where
    /// the store refused it, that is the error.
    pub fn add_document(added: Result<ContentHash, String>) -> (r: Result<
        (ContentHash, String),
        GuardianError,
    >)
        ensures
            match added {
                Ok(hash) => r is Ok && r->Ok_0.0 == hash && r->Ok_0.1@ == document_tag(hash@),
                Err(detail) => outcome(r) == Err::<(ContentHash, String), Failure>(
                    Failure::Other("Error adding bytes to the blob store: "@ + detail@),
                ),
            },
    {
        match added {
            Ok(hash) => Ok((hash, tag_of(&hash))),
            Err(detail) => Err(
                GuardianError::Other(
                    text::join2("Error adding bytes to the blob store: ", detail.as_str()),
                ),
            ),
        }
    }

    /// Whether a document was added, once its tag was set or could not be.
    pub fn document_tagged(hash: ContentHash, tagged: Result<(), String>) -> (r: Result<
        ContentHash,
        GuardianError,
    >)
        ensures
            outcome(r) == match tagged {
                Ok(_) => Ok::<ContentHash, Failure>(hash),
                Err(detail) => Err(Failure::Other("Error creating permanent tag: "@ + detail@)),
            },
    {
        match tagged {
            Ok(_) => Ok(hash),
            Err(detail) => Err(
                GuardianError::Other(
                    text::join2("Error creating permanent tag: ", detail.as_str()),
                ),
            ),
        }
    }

    /// A document, as the store gave it.
    pub fn get_document(read: Result<Vec<u8>, String>) -> (r: Result<Vec<u8>, GuardianError>)
        ensures
            outcome(r) == match read {
                Ok(data) => Ok::<Vec<u8>, Failure>(data),
                Err(detail) => Err(Failure::Other("Error fetching blob: "@ + detail@)),
            },
    {
        match read {
            Ok(data) => Ok(data),
            Err(detail) => Err(
                GuardianError::Other(text::join2("Error fetching blob: ", detail.as_str())),
            ),
        }
    }

    /// Whether the store has a document; where it cannot tell, it has none.
    pub fn has_document(found: Result<bool, String>) -> (r: bool)
        ensures
            r == (found is Ok && found->Ok_0),
    {
        match found {
            Ok(has) => has,
            Err(_) => false,
        }
    }

    /// The tag that is to be deleted so that a document is kept no more. Its content stays
    /// until nothing refers to it.
    pub fn delete_document(hash: &ContentHash) -> (r: String)
        ensures
            r@ == document_tag(hash@),
    {
        tag_of(hash)
    }

    /// Whether a document was deleted, once its tag was or could not be.
    pub fn document_untagged(untagged: Result<(), String>) -> (r: Result<(), GuardianError>)
        ensures
            outcome(r) == match untagged {
                Ok(_) => Ok::<(), Failure>(()),
                Err(detail) => Err(Failure::Other("Error deleting tag: "@ + detail@)),
            },
    {
        match untagged {
            Ok(_) => Ok(()),
            Err(detail) => Err(
                GuardianError::Other(text::join2("Error deleting tag: ", detail.as_str())),
            ),
        }
    }

    /// The documents that tags stand for, in the order of the tags; tags that could not be
    /// read are left out. Sizes are not known, and given as zero.
    pub fn list_documents(tags: Result<Vec<Result<ContentHash, String>>, String>) -> (r: Result<
        Vec<(ContentHash, u64)>,
        GuardianError,
    >)
        ensures
            match tags {
                Ok(listed) => r is Ok && r->Ok_0@ == readable(listed@).map_values(
                    |hash: ContentHash| (hash, 0u64),
                ),
                Err(detail) => outcome(r) == Err::<Vec<(ContentHash, u64)>, Failure>(
                    Failure::Other("Error getting tags: "@ + detail@),
                ),
            },
    {
        let listed: Vec<Result<ContentHash, String>> = match tags {
            Ok(listed) => listed,
            Err(detail) => {
                return Err(
                    GuardianError::Other(text::join2("Error getting tags: ", detail.as_str())),
                );
            },
        };
        let mut documents: Vec<(ContentHash, u64)> = Vec::new();
        let mut i: usize = 0;
        assert(listed@.take(0) =~= Seq::empty());
        while i < listed.len()
            invariant
                i <= listed.len(),
                documents@ =~= readable(listed@.take(i as int)).map_values(
                    |hash: ContentHash| (hash, 0u64),
                ),
            decreases listed.len() - i,
        {
            assert(listed@.take(i + 1).drop_last() =~= listed@.take(i as int));
            match &listed[i] {
                Ok(hash) => {
                    documents.push((*hash, 0));
                },
                Err(_) => {},
            }
            i += 1;
        }
        assert(listed@.take(i as int) =~= listed@);
        Ok(documents)
    }

    /// How many contents were collected: none, for the store collects them by itself. Only
    /// that tags cannot be read is an error.
    pub fn gc<T>(tags: Result<T, String>) -> (r: Result<u64, GuardianError>)
        ensures
            outcome(r) == match tags {
                Ok(_) => Ok::<u64, Failure>(0),
                Err(detail) => Err(Failure::Other("Error getting tags for GC: "@ + detail@)),
            },
    {
        match tags {
            Ok(_) => Ok(0),
            Err(detail) => Err(
                GuardianError::Other(text::join2("Error getting tags for GC: ", detail.as_str())),
            ),
        }
    }

    /// Checks that a download can be started: there is a network, and somebody to ask.
    pub fn download_from_peers(&self, providers: &Vec<NodeId>) -> (r: Result<(), GuardianError>)
        ensures
            outcome(r) == if !self.networked() {
                Err::<(), Failure>(Failure::Other("Endpoint not available for P2P blob download"@))
            } else if providers@.len() == 0 {
                Err(Failure::Other("No provider given for P2P download"@))
            } else {
                Ok(())
            },
    {
        if !self.has_endpoint {
            return Err(
                GuardianError::Other(text::owned("Endpoint not available for P2P blob download")),
            );
        }
        if providers.len() == 0 {
            return Err(GuardianError::Other(text::owned("No provider given for P2P download")));
        }
        Ok(())
    }

    /// What a report of a download means: that it goes on, or that it failed.
    pub fn progress(report: DownloadProgress) -> (r: Result<(), GuardianError>)
        ensures
            outcome(r) == match report {
                DownloadProgress::Error(detail) => Err::<(), Failure>(
                    Failure::Other("Error in P2P download: "@ + detail@),
                ),
                DownloadProgress::DownloadError => Err(Failure::Other("P2P download failed"@)),
                DownloadProgress::Continues => Ok(()),
            },
    {
        match report {
            DownloadProgress::Error(detail) => Err(
                GuardianError::Other(text::join2("Error in P2P download: ", detail.as_str())),
            ),
            DownloadProgress::DownloadError => Err(
                GuardianError::Other(text::owned("P2P download failed")),
            ),
            DownloadProgress::Continues => Ok(()),
        }
    }

    /// What is to be done once the store was asked for a document at first.
    pub fn found_locally(&self, read: Result<Vec<u8>, String>, providers: &Vec<NodeId>) -> (r:
        FetchAction)
        ensures
            match read {
                Ok(data) => r == (FetchAction::Done { data }),
                Err(_) => if !self.networked() {
                    r matches FetchAction::Failed(e) && e@ == Failure::Other(
                        "Endpoint not available for P2P blob download"@,
                    )
                } else if providers@.len() == 0 {
                    r matches FetchAction::Failed(e) && e@ == Failure::Other(
                        "No provider given for P2P download"@,
                    )
                } else {
                    r matches FetchAction::Download { providers: asked } && asked@ == providers@
                },
            },
    {
        match read {
            Ok(data) => FetchAction::Done { data },
            Err(_) => match self.download_from_peers(providers) {
                Ok(_) => FetchAction::Download { providers: node::copy(providers) },
                Err(e) => FetchAction::Failed(e),
            },
        }
    }

    /// What is to be done once a document was downloaded, or could not be.
    pub fn downloaded(result: Result<(), GuardianError>) -> (r: FetchAction)
        ensures
            r == match result {
                Ok(_) => FetchAction::Read,
                Err(e) => FetchAction::Failed(e),
            },
    {
        match result {
            Ok(_) => FetchAction::Read,
            Err(e) => FetchAction::Failed(e),
        }
    }

    /// What is to be done once the store was asked for a document after a download.
    pub fn found_after_download(hash: &ContentHash, read: Result<Vec<u8>, String>) -> (r:
        FetchAction)
        ensures
            match read {
                Ok(content) => r matches FetchAction::Tag { tag, data } && tag@ == document_tag(
                    hash@,
                ) && data == content,
                Err(detail) => r matches FetchAction::Failed(e) && e@ == Failure::Other(
                    "Blob not found after P2P download: "@ + detail@,
                ),
            },
    {
        match read {
            Ok(data) => FetchAction::Tag { tag: tag_of(hash), data },
            Err(detail) => FetchAction::Failed(
                GuardianError::Other(
                    text::join2("Blob not found after P2P download: ", detail.as_str()),
                ),
            ),
        }
    }
}

} // verus!
