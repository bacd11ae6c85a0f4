//! Content hashes: thirty-two bytes, written as hexadecimal digits.
use crate::bytes;
use crate::error::{Failure, GuardianError};
use crate::hexadecimal;
use crate::hexadecimal::{hex_decoded, hex_text};
use crate::text;
use crate::text::decimal_text;
use vstd::prelude::*;

verus! {

/// The hash of some content.
#[derive(Clone, Copy, Debug)]
pub struct ContentHash {
    pub bytes: [u8; 32],
}

impl View for ContentHash {
    type V = Seq<u8>;

    open spec fn view(&self) -> Seq<u8> {
        self.bytes@
    }
}

/// Whether a text that writes no hash is refused as it should: for what is no
/// hexadecimal, or for the number of bytes that it writes.
pub open spec fn refuses_hash(s: Seq<char>, e: Failure) -> bool {
    match hex_decoded(s) {
        None => exists|detail: Seq<char>|
            e == Failure::Other(#[trigger] ("Invalid hex hash '"@ + s + "': "@ + detail)),
        Some(read) => read.len() != 32 && e == Failure::Other(
            "Hash must be 32 bytes, found: "@ + decimal_text(read.len()),
        ),
    }
}

impl ContentHash {
    /// The hash of bytes that are all zero.
    pub fn zero() -> (r: ContentHash)
        ensures
            r@ == Seq::new(32, |i: int| 0u8),
    {
        let bytes: [u8; 32] = [0u8; 32];
        assert(bytes@ =~= Seq::new(32, |i: int| 0u8));
        ContentHash { bytes }
    }

    /// The bytes of the hash.
    pub fn as_bytes(&self) -> (r: &[u8; 32])
        ensures
            r@ == self@,
    {
        &self.bytes
    }

    /// Whether two hashes are the same.
    pub fn same(&self, other: &ContentHash) -> (r: bool)
        ensures
            r == (self@ == other@),
    {
        bytes::same_bytes(&self.bytes, &other.bytes)
    }

    /// The hash as hexadecimal digits.
    pub fn hash_to_string(&self) -> (r: String)
        ensures
            r@ == hex_text(self@),
    {
        hexadecimal::encode(&self.bytes)
    }

    /// The hash that hexadecimal digits write.
    pub fn parse_hash(s: &str) -> (r: Result<ContentHash, GuardianError>)
        ensures
            match r {
                Ok(hash) => hex_decoded(s@) == Some(hash@) && hash@.len() == 32,
                Err(e) => refuses_hash(s@, e@),
            },
            r is Ok <==> (hex_decoded(s@) is Some && hex_decoded(s@)->0.len() == 32),
    {
        let read: Vec<u8> = match hexadecimal::decode(s) {
            Ok(read) => read,
            Err(e) => {
                let detail: String = hexadecimal::describe(e);
                let head: String = text::join3("Invalid hex hash '", s, "': ");
                let message: String = text::join2(head.as_str(), detail.as_str());
                assert(message@ == "Invalid hex hash '"@ + s@ + "': "@ + detail@);
                return Err(GuardianError::Other(message));
            },
        };
        match bytes::array32(read.as_slice()) {
            Some(bytes) => Ok(ContentHash { bytes }),
            None => {
                let count: String = text::decimal(read.len() as u64);
                Err(
                    GuardianError::Other(
                        text::join2("Hash must be 32 bytes, found: ", count.as_str()),
                    ),
                )
            },
        }
    }
}

/// A hash that is written is read back.
pub proof fn lemma_hash_round_trip(hash: ContentHash)
    ensures
        hex_decoded(hex_text(hash@)) == Some(hash@),
{
    crate::hexadecimal::lemma_hex_round_trip(hash@);
}

} // verus!
