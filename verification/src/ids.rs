//! Random identifiers.
use vstd::prelude::*;

verus! {

/// Whether a character is a hexadecimal digit in lower case.
pub open spec fn is_lower_hex(c: char) -> bool {
    '0' <= c <= '9' || 'a' <= c <= 'f'
}

/// Whether a text is a random (version four) identifier in hyphenated form.
pub open spec fn is_random_id(s: Seq<char>) -> bool {
    &&& s.len() == 36
    &&& forall|i: int|
        0 <= i < 36 ==> if i == 8 || i == 13 || i == 18 || i == 23 {
            #[trigger] s[i] == '-'
        } else {
            is_lower_hex(s[i])
        }
    &&& s[14] == '4'
    &&& s[19] == '8' || s[19] == '9' || s[19] == 'a' || s[19] == 'b'
}

/// `Uuid::new_v4` draws a random UUID, and its display is the hyphenated form in
/// lower case: version four, of the variant that RFC 9562 describes.
#[verifier::external_body]
pub(crate) fn random_id() -> (r: String)
    ensures
        is_random_id(r@),
{
    uuid::Uuid::new_v4().to_string()
}

/// Whether bytes are those of a random (version four) identifier.
pub open spec fn is_random_bytes(b: Seq<u8>) -> bool {
    b.len() == 16 && b[6] / 16 == 4 && b[8] / 64 == 2
}

/// `Uuid::new_v4` draws a random UUID, and `Uuid::into_bytes` gives its bytes: version
/// four, of the variant that RFC 9562 describes.
#[verifier::external_body]
pub(crate) fn random_id_bytes() -> (r: [u8; 16])
    ensures
        is_random_bytes(r@),
{
    uuid::Uuid::new_v4().into_bytes()
}

} // verus!
