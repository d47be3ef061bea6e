//! Failures of the wallet operations.

use vstd::prelude::*;

verus! {

/// Why an operation was refused.
#[derive(Clone, Copy, Debug, PartialEq, Eq, Structural)]
pub enum AaError {
    /// The presented guardian is not the wallet's current guardian.
    GuardianMismatch,
    /// The wallet is not the address derived from the seed guardian.
    WalletMismatch,
    /// The guardian did not sign the operation.
    InvalidGuardianSignature,
    /// A registry record already exists for this wallet and guardian.
    AlreadyExists,
    /// No registry record exists for this wallet and guardian.
    NotFound,
    /// The instruction bytes do not decode to a call descriptor.
    MalformedPayload,
    /// A descriptor index lies outside the account table.
    IndexOutOfRange,
    /// The outbound call itself failed.
    OutboundCallFailed,
    /// The host found no address for the wallet's seeds.
    AddressNotFound,
}

} // verus!
