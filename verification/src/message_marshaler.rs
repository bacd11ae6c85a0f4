//! The marshaler of exchanged heads.
use crate::error::{Failure, GuardianError};
use crate::log::entry::Entry;
use crate::log::form::{
    entry_of, form_model, form_models, form_of, lemma_form_round_trip, EntryForm, EntryModel,
    FormModel, NO_ENTRY,
};
use crate::text;
use vstd::prelude::*;

verus! {

/// The heads of a log that a peer tells another of, with the address of the store.
#[derive(Debug)]
pub struct MessageExchangeHeads {
    pub address: String,
    pub heads: Vec<Entry>,
}

/// The model of exchanged heads.
#[verifier::ext_equal]
pub struct HeadsModel {
    pub address: Seq<char>,
    pub heads: Seq<EntryModel>,
}

impl View for MessageExchangeHeads {
    type V = HeadsModel;

    open spec fn view(&self) -> HeadsModel {
        HeadsModel {
            address: self.address@,
            heads: self.heads@.map_values(|entry: Entry| entry@),
        }
    }
}

/// An address and the values of entries in postcard's binary form.
pub uninterp spec fn postcard_heads(address: Seq<char>, heads: Seq<FormModel>) -> Seq<u8>;

/// The address and the values of entries that bytes write in postcard's binary form.
pub uninterp spec fn postcard_heads_in(data: Seq<u8>) -> Option<(Seq<char>, Seq<FormModel>)>;

/// `postcard::to_allocvec` writes values one after the other: here an address and the
/// values of entries. Texts, numbers, lists, options and tuples are always written, what is
/// written depends on the values alone, and `postcard::from_bytes` reads them back.
#[verifier::external_body]
fn write_heads(address: &str, heads: &Vec<EntryForm>) -> (r: Result<Vec<u8>, String>)
    ensures
        r is Ok,
        r->Ok_0@ == postcard_heads(address@, form_models(heads@)),
        postcard_heads_in(r->Ok_0@) == Some((address@, form_models(heads@))),
{
    postcard::to_allocvec(&(address, heads)).map_err(|e| e.to_string())
}

/// `postcard::from_bytes` reads values one after the other: here an address and the values
/// of entries. What it reads, and whether it can, depends on the bytes alone. Of the error's
/// text nothing is known.
#[verifier::external_body]
fn read_heads(data: &[u8]) -> (r: Result<(String, Vec<EntryForm>), String>)
    ensures
        match r {
            Ok(read) => postcard_heads_in(data@) == Some((read.0@, form_models(read.1@))),
            Err(_) => postcard_heads_in(data@) is None,
        },
{
    postcard::from_bytes::<(String, Vec<EntryForm>)>(data).map_err(|e| e.to_string())
}

/// The bytes that exchanged heads are marshaled as.
pub open spec fn marshaled(message: HeadsModel) -> Seq<u8> {
    postcard_heads(message.address, message.heads.map_values(|entry: EntryModel| form_of(entry)))
}

/// The exchanged heads that an address and the values of entries write.
pub open spec fn heads_of(address: Seq<char>, forms: Seq<FormModel>) -> Option<HeadsModel> {
    if forall|i: int| 0 <= i < forms.len() ==> entry_of(#[trigger] forms[i]) is Some {
        Some(HeadsModel { address, heads: forms.map_values(|form: FormModel| entry_of(form)->0) })
    } else {
        None
    }
}

/// The exchanged heads that bytes write.
pub open spec fn unmarshaled(data: Seq<u8>) -> Option<HeadsModel> {
    match postcard_heads_in(data) {
        Some((address, forms)) => heads_of(address, forms),
        None => None,
    }
}

/// Exchanged heads that may be there, as their model.
pub open spec fn optional_heads(message: Option<MessageExchangeHeads>) -> Option<HeadsModel> {
    match message {
        Some(message) => Some(message@),
        None => None,
    }
}

/// The exchanged heads that an address and the values of entries write.
pub fn read_message(address: String, forms: &Vec<EntryForm>) -> (r: Option<MessageExchangeHeads>)
    ensures
        optional_heads(r) == heads_of(address@, form_models(forms@)),
{
    let ghost models = form_models(forms@);
    let mut heads: Vec<Entry> = Vec::new();
    let mut i: usize = 0;
    while i < forms.len()
        invariant
            i <= forms.len(),
            models == form_models(forms@),
            heads@.len() == i,
            forall|j: int| 0 <= j < i ==> entry_of(#[trigger] models[j]) == Some(heads@[j]@),
        decreases forms.len() - i,
    {
        assert(models[i as int] == form_model(forms@[i as int]));
        match Entry::of_form(&forms[i]) {
            Some(entry) => {
                heads.push(entry);
            },
            None => {
                return None;
            },
        }
        i += 1;
    }
    let message: MessageExchangeHeads = MessageExchangeHeads { address, heads };
    assert(message@.heads =~= models.map_values(|form: FormModel| entry_of(form)->0));
    Some(message)
}

/// Marshals messages in postcard's binary form.
#[derive(Clone, Copy, PartialEq, Eq, Structural, Debug)]
pub struct PostcardMarshaler;

impl PostcardMarshaler {
    /// A marshaler.
    pub fn new() -> (r: PostcardMarshaler)
        ensures
            r == PostcardMarshaler,
    {
        PostcardMarshaler
    }

    /// The bytes of a message, from which the same message is read again. They depend on the
    /// message alone.
    pub fn marshal(&self, m: &MessageExchangeHeads) -> (r: Result<Vec<u8>, GuardianError>)
        ensures
            r is Ok,
            r->Ok_0@ == marshaled(m@),
            unmarshaled(r->Ok_0@) == Some(m@),
    {
        let mut forms: Vec<EntryForm> = Vec::new();
        let mut i: usize = 0;
        while i < m.heads.len()
            invariant
                i <= m.heads.len(),
                forms@.len() == i,
                forall|j: int|
                    0 <= j < i ==> form_model(#[trigger] forms@[j]) == form_of(m.heads@[j]@),
            decreases m.heads.len() - i,
        {
            forms.push(m.heads[i].form());
            i += 1;
        }
        let ghost models = form_models(forms@);
        proof {
            assert(models =~= m@.heads.map_values(|entry: EntryModel| form_of(entry)));
            assert forall|j: int| 0 <= j < models.len() implies entry_of(#[trigger] models[j])
                == Some(m@.heads[j]) by {
                lemma_form_round_trip(m.heads@[j]);
            }
            assert(models.map_values(|form: FormModel| entry_of(form)->0) =~= m@.heads);
        }
        match write_heads(m.address.as_str(), &forms) {
            Ok(data) => Ok(data),
            Err(detail) => Err(GuardianError::Other(detail)),
        }
    }

    /// The message that bytes write.
    pub fn unmarshal(&self, data: &[u8]) -> (r: Result<MessageExchangeHeads, GuardianError>)
        ensures
            match unmarshaled(data@) {
                Some(message) => r is Ok && r->Ok_0@ == message,
                None => r is Err && exists|detail: Seq<char>|
                    r->Err_0@ == Failure::Other(
                        #[trigger] ("Deserialization error: "@ + detail),
                    ),
            },
    {
        let detail: String = match read_heads(data) {
            Ok(read) => match read_message(read.0, &read.1) {
                Some(message) => {
                    return Ok(message);
                },
                None => text::owned(NO_ENTRY),
            },
            Err(detail) => detail,
        };
        let words: String = text::join2("Deserialization error: ", detail.as_str());
        assert(words@ == "Deserialization error: "@ + detail@);
        Err(GuardianError::Other(words))
    }
}

impl Default for PostcardMarshaler {
    fn default() -> (r: Self)
        ensures
            r == PostcardMarshaler,
    {
        Self::new()
    }
}

} // verus!
