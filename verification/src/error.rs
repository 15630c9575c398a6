//! Error values for transaction assembly and the wire codec.

use vstd::prelude::*;

verus! {

/// Every failure the library can report. All errors are plain values
/// returned to the caller; nothing is retried internally.
#[derive(Debug, Clone, Copy, PartialEq, Eq, Structural)]
pub enum TxAsmError {
    /// The builder is not ready: payer or recency token missing, or no
    /// instructions were added.
    InvalidTransaction,
    /// An instruction references a key that the account registry does not
    /// hold; unreachable when the registry was derived from the same
    /// instruction set, but checked explicitly.
    UnresolvedAccount,
    /// The deduplicated account list does not fit the one-byte index space.
    TooManyAccounts,
    /// The signer list handed to signing does not match the number of
    /// required signatures.
    SignatureCountMismatch { expected: usize, actual: usize },
    /// A decoder needed more bytes than the buffer holds.
    TruncatedInput { needed: usize, available: usize },
    /// A variable-length integer still had its continuation bit set after
    /// the last permitted byte.
    MalformedVarint,
    /// A count or length field exceeds the range the wire format can carry.
    Unrepresentable,
    /// A fee percentile outside 0..=100 was requested.
    InvalidPercentile,
}

} // verus!
