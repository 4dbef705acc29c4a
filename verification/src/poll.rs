//! Readiness of a value that may have to wait for more input.

use vstd::prelude::*;

verus! {

/// Either a value, or the news that it cannot be had before more bytes
/// arrive. Waiting is an ordinary outcome, not an error: the caller supplies
/// more input and asks again.
#[derive(Debug, PartialEq, Eq)]
pub enum Async<T> {
    /// The value is there.
    Ready(T),
    /// More input is needed first.
    NotReady,
}

} // verus!
