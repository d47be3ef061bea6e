//! Guardian-approved delegated execution for program-derived wallets.
//!
//! A wallet is an address derived from the key of the guardian that created
//! it. The guardian registry records which guardian currently controls each
//! wallet; a call descriptor, decoded from bytes, is resolved against a table
//! of accounts into an outbound call that the host signs as the wallet.

pub mod error;
pub mod keys;
pub mod codec;
pub mod registry;
pub mod dispatch;
