//! The binary form of entries.
use crate::bytes;
use crate::hash::ContentHash;
use crate::hexadecimal::hex_text;
use crate::log::entry::{hashes, Entry, Error};
use crate::log::identity::{hex_of_length, Identity, IdentityModel, Signatures};
use crate::log::lamport_clock::{ClockModel, LamportClock};
use crate::text;
use crate::text::texts;
use vstd::prelude::*;

verus! {

/// The model of an entry.
#[verifier::ext_equal]
pub struct EntryModel {
    pub hash: Seq<u8>,
    pub id: Seq<char>,
    pub payload: Seq<u8>,
    pub next: Seq<Seq<u8>>,
    pub v: u32,
    pub clock: ClockModel,
    pub identity: Option<IdentityModel>,
}

impl View for Entry {
    type V = EntryModel;

    open spec fn view(&self) -> EntryModel {
        EntryModel {
            hash: self.hash@,
            id: self.id@,
            payload: self.payload@,
            next: hashes(self.next@),
            v: self.v,
            clock: self.clock@,
            identity: match self.identity {
                Some(identity) => Some(identity@),
                None => None,
            },
        }
    }
}

/// The values that an entry is written as: its hash as hexadecimal digits, its log, its
/// payload, the hashes of its parents as digits, the version, the identifier and the time
/// of its clock, and the four texts of its identity.
pub type EntryForm = (
    String,
    String,
    Vec<u8>,
    Vec<String>,
    u32,
    (String, i32),
    Option<(String, String, String, String)>,
);

/// The model of the values that an entry is written as.
#[verifier::ext_equal]
pub struct FormModel {
    pub hash: Seq<char>,
    pub id: Seq<char>,
    pub payload: Seq<u8>,
    pub next: Seq<Seq<char>>,
    pub v: u32,
    pub clock: ClockModel,
    pub identity: Option<IdentityModel>,
}

/// The model of the values that an entry is written as.
pub open spec fn form_model(form: EntryForm) -> FormModel {
    FormModel {
        hash: form.0@,
        id: form.1@,
        payload: form.2@,
        next: texts(form.3@),
        v: form.4,
        clock: ClockModel { id: form.5.0@, time: form.5.1 as int },
        identity: match form.6 {
            Some(identity) => Some(
                IdentityModel {
                    id: identity.0@,
                    pub_key: identity.1@,
                    id_signature: identity.2@,
                    key_signature: identity.3@,
                },
            ),
            None => None,
        },
    }
}

/// The models of the values that entries are written as.
pub open spec fn form_models(forms: Seq<EntryForm>) -> Seq<FormModel> {
    forms.map_values(|form: EntryForm| form_model(form))
}

/// What an entry is written as.
pub open spec fn form_of(entry: EntryModel) -> FormModel {
    FormModel {
        hash: hex_text(entry.hash),
        id: entry.id,
        payload: entry.payload,
        next: entry.next.map_values(|h: Seq<u8>| hex_text(h)),
        v: entry.v,
        clock: entry.clock,
        identity: entry.identity,
    }
}

/// The hash that digits write.
pub open spec fn hash_read(digits: Seq<char>) -> Option<Seq<u8>> {
    hex_of_length(digits, 32)
}

/// The entry that is written with the given values: there is one where all hashes are
/// thirty-two bytes in hexadecimal digits.
pub open spec fn entry_of(form: FormModel) -> Option<EntryModel> {
    if hash_read(form.hash) is Some && (forall|i: int|
        0 <= i < form.next.len() ==> hash_read(#[trigger] form.next[i]) is Some) {
        Some(
            EntryModel {
                hash: hash_read(form.hash)->0,
                id: form.id,
                payload: form.payload,
                next: form.next.map_values(|digits: Seq<char>| hash_read(digits)->0),
                v: form.v,
                clock: form.clock,
                identity: form.identity,
            },
        )
    } else {
        None
    }
}

/// What an entry is written as is read as the same entry.
pub proof fn lemma_form_round_trip(entry: Entry)
    ensures
        entry_of(form_of(entry@)) == Some(entry@),
{
    let form = form_of(entry@);
    crate::hexadecimal::lemma_hex_round_trip(entry.hash@);
    assert forall|i: int| 0 <= i < form.next.len() implies hash_read(#[trigger] form.next[i])
        == Some(entry@.next[i]) by {
        crate::hexadecimal::lemma_hex_round_trip(entry.next@[i]@);
    }
    assert(form.next.map_values(|digits: Seq<char>| hash_read(digits)->0) =~= entry@.next);
}

/// An entry that may be there, as its model.
pub open spec fn optional_entry(entry: Option<Entry>) -> Option<EntryModel> {
    match entry {
        Some(entry) => Some(entry@),
        None => None,
    }
}

impl Entry {
    /// The values that the entry is written as.
    pub fn form(&self) -> (r: EntryForm)
        ensures
            form_model(r) == form_of(self@),
    {
        let mut next: Vec<String> = Vec::new();
        let mut i: usize = 0;
        while i < self.next.len()
            invariant
                i <= self.next.len(),
                next@.len() == i,
                forall|j: int| 0 <= j < i ==> (#[trigger] next@[j])@ == hex_text(self.next@[j]@),
            decreases self.next.len() - i,
        {
            next.push(self.next[i].hash_to_string());
            i += 1;
        }
        assert(texts(next@) =~= form_of(self@).next);
        let identity: Option<(String, String, String, String)> = match &self.identity {
            Some(identity) => {
                let signatures: &Signatures = identity.signatures();
                Some(
                    (
                        text::owned(identity.id()),
                        text::owned(identity.pub_key()),
                        text::owned(signatures.id()),
                        text::owned(signatures.pub_key()),
                    ),
                )
            },
            None => None,
        };
        (
            self.hash.hash_to_string(),
            text::owned(self.id.as_str()),
            bytes::to_vec(self.payload.as_slice()),
            next,
            self.v,
            (text::owned(self.clock.id()), self.clock.time()),
            identity,
        )
    }

    /// The entry that is written with the given values.
    pub fn of_form(form: &EntryForm) -> (r: Option<Entry>)
        ensures
            optional_entry(r) == entry_of(form_model(*form)),
    {
        let hash: ContentHash = match ContentHash::parse_hash(form.0.as_str()) {
            Ok(hash) => hash,
            Err(_) => {
                return None;
            },
        };
        let ghost model = form_model(*form);
        let mut next: Vec<ContentHash> = Vec::new();
        let mut i: usize = 0;
        while i < form.3.len()
            invariant
                i <= form.3.len(),
                model == form_model(*form),
                next@.len() == i,
                forall|j: int|
                    0 <= j < i ==> hash_read(#[trigger] model.next[j]) == Some(next@[j]@),
            decreases form.3.len() - i,
        {
            assert(model.next[i as int] == form.3@[i as int]@);
            match ContentHash::parse_hash(form.3[i].as_str()) {
                Ok(parent) => {
                    next.push(parent);
                },
                Err(_) => {
                    return None;
                },
            }
            i += 1;
        }
        assert(hashes(next@) =~= model.next.map_values(
            |digits: Seq<char>| hash_read(digits)->0,
        ));
        let identity: Option<Identity> = match &form.6 {
            Some(texts) => {
                let signatures: Signatures = Signatures::new(texts.2.as_str(), texts.3.as_str());
                Some(Identity::new(texts.0.as_str(), texts.1.as_str(), signatures))
            },
            None => None,
        };
        Some(
            Entry {
                hash,
                id: text::owned(form.1.as_str()),
                payload: bytes::to_vec(form.2.as_slice()),
                next,
                v: form.4,
                clock: LamportClock { id: text::owned(form.5.0.as_str()), time: form.5.1 },
                identity,
            },
        )
    }
}

/// The values of an entry that bytes write in postcard's binary form.
pub uninterp spec fn postcard_entry_in(data: Seq<u8>) -> Option<FormModel>;

/// `postcard::from_bytes` reads values one after the other: here those of an entry. What it
/// reads, and whether it can, depends on the bytes alone. Of the error's text nothing is
/// known.
#[verifier::external_body]
fn postcard_entry(data: &[u8]) -> (r: Result<EntryForm, String>)
    ensures
        match r {
            Ok(form) => postcard_entry_in(data@) == Some(form_model(form)),
            Err(_) => postcard_entry_in(data@) is None,
        },
{
    postcard::from_bytes::<EntryForm>(data).map_err(|e| e.to_string())
}

/// The entry that bytes write.
pub open spec fn stored_entry(data: Seq<u8>) -> Option<EntryModel> {
    match postcard_entry_in(data) {
        Some(form) => entry_of(form),
        None => None,
    }
}

/// What the reader says of values that are well formed and are no entry.
pub const NO_ENTRY: &'static str = "Serde Deserialization Error";

impl Entry {
    /// The entry that was found under a hash as the given bytes.
    pub fn from_stored(hash: &ContentHash, data: &[u8]) -> (r: Result<Entry, Error>)
        ensures
            match stored_entry(data@) {
                Some(entry) => r is Ok && r->Ok_0@ == (EntryModel { hash: hash@, ..entry }),
                None => r is Err && exists|detail: Seq<char>|
                    r->Err_0 matches Error::Other(m) && m@ == #[trigger] (
                    "Deserialization error: "@ + detail),
            },
    {
        let detail: String = match postcard_entry(data) {
            Ok(form) => match Entry::of_form(&form) {
                Some(mut entry) => {
                    entry.set_hash(hash);
                    return Ok(entry);
                },
                None => text::owned(NO_ENTRY),
            },
            Err(detail) => detail,
        };
        let words: String = text::join2("Deserialization error: ", detail.as_str());
        assert(words@ == "Deserialization error: "@ + detail@);
        Err(Error::Other(words))
    }
}

} // verus!
