//! Shared documents and their authors.
use crate::error::{outcome, Failure, GuardianError};
use crate::hash::ContentHash;
use crate::p2p::network::backend::blobs::readable;
use crate::sorting;
use crate::text;
use vstd::prelude::*;

verus! {

/// What the document store is asked to do so that there is a default author.
#[derive(Clone, Copy, Debug)]
pub enum AuthorStep {
    /// Nothing: this is the author.
    Done([u8; 32]),
    /// Tell its default author.
    AskDefault,
    /// Create an author.
    Create,
    /// Make an author the default one; whether that succeeds does not matter.
    SetDefault([u8; 32]),
}

/// Shared documents, with the author that writes them.
#[derive(Debug)]
pub struct WillowDocs {
    default_author: Option<[u8; 32]>,
}

impl WillowDocs {
    /// The author that writes, if there is one yet.
    pub closed spec fn author(self) -> Option<[u8; 32]> {
        self.default_author
    }

    /// Nobody writes yet.
    pub fn new() -> (r: WillowDocs)
        ensures
            r.author() is None,
    {
        WillowDocs { default_author: None }
    }

    /// The author that writes; if there is none, the store is to be asked.
    pub fn get_or_init_author(&self) -> (r: AuthorStep)
        ensures
            r == match self.author() {
                Some(author) => AuthorStep::Done(author),
                None => AuthorStep::AskDefault,
            },
    {
        match self.default_author {
            Some(author) => AuthorStep::Done(author),
            None => AuthorStep::AskDefault,
        }
    }

    /// Takes in the default author of the store; if it has none, one is to be created.
    pub fn found_default(&mut self, found: Option<[u8; 32]>) -> (r: AuthorStep)
        ensures
            r == match found {
                Some(author) => AuthorStep::Done(author),
                None => AuthorStep::Create,
            },
            final(self).author() == match found {
                Some(author) => Some(author),
                None => old(self).author(),
            },
    {
        match found {
            Some(author) => {
                self.default_author = Some(author);
                AuthorStep::Done(author)
            },
            None => AuthorStep::Create,
        }
    }

    /// Takes in an author that was created, which writes from now on, or why none could be.
    pub fn created(&mut self, result: Result<[u8; 32], String>) -> (r: Result<
        AuthorStep,
        GuardianError,
    >)
        ensures
            outcome(r) == match result {
                Ok(author) => Ok::<AuthorStep, Failure>(AuthorStep::SetDefault(author)),
                Err(detail) => Err(Failure::Storage("Failed to create author: "@ + detail@)),
            },
            final(self).author() == match result {
                Ok(author) => Some(author),
                Err(_) => old(self).author(),
            },
    {
        match result {
            Ok(author) => {
                self.default_author = Some(author);
                Ok(AuthorStep::SetDefault(author))
            },
            Err(detail) => Err(
                GuardianError::Storage(text::join2("Failed to create author: ", detail.as_str())),
            ),
        }
    }

    /// The author that writes, else the default one of the store, or why there is none.
    pub fn default_author_id(&self, found: Result<[u8; 32], String>) -> (r: Result<
        [u8; 32],
        GuardianError,
    >)
        ensures
            outcome(r) == match self.author() {
                Some(author) => Ok::<[u8; 32], Failure>(author),
                None => match found {
                    Ok(author) => Ok(author),
                    Err(detail) => Err(
                        Failure::Storage("No default author configured: "@ + detail@),
                    ),
                },
            },
    {
        match self.default_author {
            Some(author) => Ok(author),
            None => match found {
                Ok(author) => Ok(author),
                Err(detail) => Err(
                    GuardianError::Storage(
                        text::join2("No default author configured: ", detail.as_str()),
                    ),
                ),
            },
        }
    }
}

/// What a document store answered, or why it failed, in words that begin with a prefix.
pub open spec fn stored<T>(answer: Result<T, String>, prefix: Seq<char>) -> Result<T, Failure> {
    match answer {
        Ok(value) => Ok(value),
        Err(detail) => Err(Failure::Storage(prefix + detail@)),
    }
}

/// What a document store answered, or why it failed, in words that begin with a prefix.
fn storage_result<T>(answer: Result<T, String>, prefix: &str) -> (r: Result<T, GuardianError>)
    ensures
        outcome(r) == stored(answer, prefix@),
{
    match answer {
        Ok(value) => Ok(value),
        Err(detail) => Err(GuardianError::Storage(text::join2(prefix, detail.as_str()))),
    }
}

/// What the holder of a ticket may do.
#[derive(Clone, Copy, PartialEq, Eq, Structural, Debug)]
pub enum ShareMode {
    Read,
    Write,
}

impl WillowDocs {
    /// What the ticket of a document that is shared is to allow.
    pub fn share_mode(write: bool) -> (r: ShareMode)
        ensures
            r == if write {
                ShareMode::Write
            } else {
                ShareMode::Read
            },
    {
        if write {
            ShareMode::Write
        } else {
            ShareMode::Read
        }
    }

    /// The ticket of a document that was shared.
    pub fn share_doc(shared: Result<String, String>) -> (r: Result<String, GuardianError>)
        ensures
            outcome(r) == stored(shared, "Failed to share document via ticket: "@),
    {
        storage_result(shared, "Failed to share document via ticket: ")
    }

    /// A document that was created.
    pub fn create_doc<D>(made: Result<D, String>) -> (r: Result<D, GuardianError>)
        ensures
            outcome(r) == stored(made, "Failed to create document: "@),
    {
        storage_result(made, "Failed to create document: ")
    }

    /// A document that was joined by its ticket.
    pub fn import_doc<D>(imported: Result<D, String>) -> (r: Result<D, GuardianError>)
        ensures
            outcome(r) == stored(imported, "Failed to import document from ticket: "@),
    {
        storage_result(imported, "Failed to import document from ticket: ")
    }

    /// A document that was opened, or that there is none.
    pub fn open_doc<D>(opened: Result<Option<D>, String>) -> (r: Result<Option<D>, GuardianError>)
        ensures
            outcome(r) == stored(opened, "Failed to open document: "@),
    {
        storage_result(opened, "Failed to open document: ")
    }

    /// That a document was closed.
    pub fn close_doc(closed: Result<(), String>) -> (r: Result<(), GuardianError>)
        ensures
            outcome(r) == stored(closed, "Failed to close document: "@),
    {
        storage_result(closed, "Failed to close document: ")
    }

    /// That a document was dropped.
    pub fn drop_doc(dropped: Result<(), String>) -> (r: Result<(), GuardianError>)
        ensures
            outcome(r) == stored(dropped, "Failed to drop document: "@),
    {
        storage_result(dropped, "Failed to drop document: ")
    }

    /// The hash of what was written under a key.
    pub fn set_bytes(set: Result<ContentHash, String>) -> (r: Result<ContentHash, GuardianError>)
        ensures
            outcome(r) == stored(set, "Failed to set bytes: "@),
    {
        storage_result(set, "Failed to set bytes: ")
    }

    /// How many entries were deleted.
    pub fn del(deleted: Result<usize, String>) -> (r: Result<usize, GuardianError>)
        ensures
            outcome(r) == stored(deleted, "Failed to delete: "@),
    {
        storage_result(deleted, "Failed to delete: ")
    }

    /// The entry that a query found, or that there is none.
    pub fn get_one<D>(found: Result<Option<D>, String>) -> (r: Result<Option<D>, GuardianError>)
        ensures
            outcome(r) == stored(found, "Failed to get entry: "@),
    {
        storage_result(found, "Failed to get entry: ")
    }

    /// The entries that a query found, in order; those that could not be read are left out.
    pub fn get_many<D>(found: Result<Vec<Result<D, String>>, String>) -> (r: Result<
        Vec<D>,
        GuardianError,
    >)
        ensures
            match found {
                Ok(listed) => r is Ok && r->Ok_0@ == readable(listed@),
                Err(detail) => outcome(r) == Err::<Vec<D>, Failure>(
                    Failure::Storage("Failed to get entries: "@ + detail@),
                ),
            },
    {
        let rest: Vec<Result<D, String>> = match found {
            Ok(listed) => listed,
            Err(detail) => {
                return Err(
                    GuardianError::Storage(
                        text::join2("Failed to get entries: ", detail.as_str()),
                    ),
                );
            },
        };
        let ghost whole = rest@;
        let mut left: Vec<Result<D, String>> = sorting::reversed(rest);
        let mut entries: Vec<D> = Vec::new();
        let ghost mut done: int = 0;
        assert(whole.take(0) =~= Seq::empty());
        while left.len() > 0
            invariant
                0 <= done,
                done + left@.len() == whole.len(),
                left@ == whole.reverse().take(left@.len() as int),
                entries@ == readable(whole.take(done)),
            decreases left@.len(),
        {
            let ghost n = left@.len() as int;
            assert(whole.take(done + 1).drop_last() =~= whole.take(done));
            match left.pop() {
                Some(item) => {
                    assert(item == whole[done]);
                    match item {
                        Ok(entry) => {
                            entries.push(entry);
                        },
                        Err(_) => {},
                    }
                },
                None => {},
            }
            assert(whole.reverse().take(n).drop_last() =~= whole.reverse().take(n - 1));
            proof {
                done = done + 1;
            }
        }
        assert(whole.take(done) =~= whole);
        Ok(entries)
    }
}

} // verus!
