use vstd::prelude::*;

pub mod bytes;
pub mod clock;
pub mod crypto;
pub mod entries;
pub mod error;
pub mod hash;
pub mod hexadecimal;
pub mod idmap;
pub mod ids;
pub mod json;
pub mod log;
pub mod message_marshaler;
pub mod number;
pub mod odm;
pub mod p2p;
pub mod pgwire;
pub mod pgwire_laws;
pub mod sorting;
pub mod text;

verus! {

} // verus!
