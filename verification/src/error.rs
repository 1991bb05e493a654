//! What can go wrong while an inscription is decoded and its proof checked.

use vstd::prelude::*;

verus! {

/// A structural defect of an inscription payload. The payload itself is at
/// fault, so trying again cannot help.
#[derive(Clone, Copy, Debug, PartialEq, Eq, Structural)]
pub enum MalformedInscription {
    /// The payload is shorter than the reference to the previous inscription.
    TruncatedReference,
    /// No `public_inputs_end` token stands after the reference.
    MissingPublicInputsEnd,
    /// No `nonce` token stands after the `public_inputs_end` token.
    MissingNonce,
    /// The payload ends with the `nonce` token, without the byte that closes the proof.
    MissingClosingByte,
}

/// Why a transaction gives no inscription payload.
#[derive(Clone, Copy, Debug, PartialEq, Eq, Structural)]
pub enum MissingPayload {
    /// The transaction holds no inscription.
    NoInscription,
    /// The first inscription of the transaction has no body.
    MissingBody,
}

/// Why the resolver or the blockchain client gave no answer.
#[derive(Clone, Copy, Debug, PartialEq, Eq, Structural)]
pub enum CapabilityFailure {
    /// The collaborator answered that it knows no such item.
    NotFound,
    /// The collaborator could not be reached.
    Unreachable,
    /// The collaborator did not answer in time.
    Timeout,
}

/// Why the proof verifier could not come to a verdict.
#[derive(Clone, Copy, Debug, PartialEq, Eq, Structural)]
pub enum VerifierFailure {
    /// The proof bytes are no serialized proof.
    MalformedProof,
    /// The public-input bytes are no serialized public inputs.
    MalformedPublicInputs,
    /// The verifier did not answer in time.
    Timeout,
}

/// Why a digest could not be checked. A proof that was checked and found
/// invalid is no error: it is reported as `Ok(false)`.
#[derive(Clone, Copy, Debug, PartialEq, Eq, Structural)]
pub enum VerificationError {
    /// The inscription that was fetched for the digest does not decode.
    MalformedInscription(MalformedInscription),
    /// The resolver gave no inscription identifier, retries included.
    ResolutionFailed(CapabilityFailure),
    /// The blockchain client gave no payload, retries included.
    FetchFailed(CapabilityFailure),
    /// The proof verifier could not complete.
    VerifierError(VerifierFailure),
}

} // verus!
