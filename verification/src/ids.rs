//! Identifiers of endpoints and of requests.
use rand::Rng;
use vstd::prelude::*;

verus! {

/// The identifier of one logical endpoint of a multiplexed stream.
#[derive(Clone, Copy, PartialEq, Eq, Structural, Hash, Debug)]
pub struct EndPointId(pub usize);

/// The identifier that ties a response to the request it answers.
#[derive(Clone, Copy, PartialEq, Eq, Structural, Hash, Debug)]
pub struct RequestId(pub usize);

/// Draws a `usize` from `rand::thread_rng()` through `Rng::gen` (rand 0.8).
/// The value is random, so the contract states nothing of it.  The generator
/// panics only when the operating system's random source fails, either when
/// it is first seeded in a thread or when it is periodically reseeded; that
/// condition is outside what a caller can test.
#[verifier::external_body]
fn random_usize() -> usize {
    rand::thread_rng().gen()
}

impl RequestId {
    /// A fresh, randomly chosen request identifier.
    pub fn new() -> (id: RequestId) {
        RequestId(random_usize())
    }
}

} // verus!
