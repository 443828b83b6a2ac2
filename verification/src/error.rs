//! The error taxonomy of the membership core.

use vstd::prelude::*;

verus! {

/// Every failure the core surfaces to a caller.
///
/// Parse failures carry a human-readable reason; cryptographic mismatches are
/// kept distinct from parse failures and from invalid signatures, and the
/// membership protocol errors are distinct from both.
#[derive(Clone, PartialEq, Eq, Debug)]
pub enum Error {
    /// Malformed hex, wrong byte length, or an invalid group element.
    FailedToParse(String),
    /// A signature variant that does not match the key variant.
    SigningKeyTypeMismatch,
    /// A well-formed but cryptographically invalid signature.
    InvalidSignature,
    /// The incoming vote is for a generation this node cannot tally; the
    /// sender is asked for an anti-entropy catch-up.
    RequestAntiEntropy,
    /// A proposal the engine cannot accept at its current state.
    InvalidProposal,
    /// The voter is not an elder of the section.
    NotElder,
    /// The signature shares of a decision could not be combined.
    FailedToAggregate,
    /// A lookup into a file map found nothing under the key.
    EntryNotFound(String),
    /// A file map whose contents do not answer the request.
    ContentError(String),
}

impl Error {
    /// True exactly for the anti-entropy request.
    pub fn is_request_anti_entropy(&self) -> (r: bool)
        ensures
            r == (self is RequestAntiEntropy),
    {
        match self {
            Error::RequestAntiEntropy => true,
            _ => false,
        }
    }

    /// True for the variants that carry no reason string.
    pub fn is_crypto_error(&self) -> (r: bool)
        ensures
            r == (self is SigningKeyTypeMismatch || self is InvalidSignature),
    {
        match self {
            Error::SigningKeyTypeMismatch => true,
            Error::InvalidSignature => true,
            _ => false,
        }
    }
}

/// The result type used throughout the core.
pub type Result<T> = core::result::Result<T, Error>;

} // verus!
