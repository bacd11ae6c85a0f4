//! The clocks and write options of a log.
use crate::hash::ContentHash;
use vstd::prelude::*;

verus! {

/// A Lamport clock that merges with others.
pub trait IrohLogLamportClock: Sized {
    /// A clock that was not set.
    fn new() -> Self;

    /// Whether the clock was set.
    fn defined(&self) -> bool;

    /// The identifier of whoever keeps the clock.
    fn get_id(&self) -> Vec<u8>;

    /// The clock's time.
    fn get_time(&self) -> i32;

    /// Sets the identifier.
    fn set_id(&mut self, id: Vec<u8>);

    /// Sets the time.
    fn set_time(&mut self, time: i32);

    /// Advances the clock by one.
    fn tick(&mut self) -> Self;

    /// Advances the clock to the later of two times.
    fn merge(&mut self, clock: &Self) -> Self;

    /// Negative, zero or positive as the clock is before, equal to or after another.
    fn compare(&self, b: &Self) -> i32;
}

/// A log by its identifier and its latest entries.
#[derive(Debug)]
pub struct JSONLog {
    pub id: String,
    pub heads: Vec<ContentHash>,
}

/// Options for writing to a log.
#[derive(Debug)]
pub struct WriteOpts {
    pub pin: bool,
    pub encrypted_links: Option<String>,
    pub encrypted_links_nonce: Option<String>,
}

} // verus!
