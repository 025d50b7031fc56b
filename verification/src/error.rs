//! Error taxonomy of the distribution engine and the recovery policy each
//! error calls for.

use vstd::prelude::*;
use vstd::arithmetic::power2::{lemma_pow2_unfold, pow2};

verus! {

/// The ways a share, download or chunk exchange can fail.
#[derive(Clone, Copy, Debug, PartialEq, Eq, Structural)]
pub enum DeskShareError {
    /// No manifest for the requested file digest is known.
    ManifestNotFound,
    /// A manifest under the same file digest but with different content is
    /// already published.
    DuplicateManifest,
    /// A chunk- or file-level digest comparison failed past the retry budget,
    /// or two different payloads met under one digest.
    IntegrityCheckFailed,
    /// A peer did not answer a request in time; retried against another.
    PeerUnavailable,
    /// Reading or writing local storage failed.
    LocalIoError,
    /// The download was cancelled by the caller.
    Cancelled,
    /// No download session exists for the given file digest.
    SessionNotFound,
    /// The requested chunk digest is not in the local store.
    ChunkNotFound,
}

/// What a caller should do about an error.
#[derive(Clone, Copy, Debug, PartialEq, Eq, Structural)]
pub enum RecoveryStrategy {
    /// Retry the operation with exponential backoff.
    Retry { max_attempts: u32, backoff_ms: u64 },
    /// Fall back to an alternative method.
    Fallback,
    /// Fail immediately.
    Fail,
}

/// The wait before retry number `attempt`, under exponential backoff
/// starting from `initial_ms`.
pub open spec fn backoff_spec(initial_ms: nat, attempt: nat) -> nat {
    initial_ms * pow2(attempt)
}

/// The exponential backoff rule: each retry waits twice as long as the one
/// before, saturating at the largest representable wait.
pub fn backoff_for_attempt(initial_ms: u64, attempt: u32) -> (r: u64)
    ensures
        backoff_spec(initial_ms as nat, attempt as nat) <= u64::MAX ==> r == backoff_spec(
            initial_ms as nat,
            attempt as nat,
        ),
        backoff_spec(initial_ms as nat, attempt as nat) > u64::MAX ==> r == u64::MAX,
{
    let mut b = initial_ms;
    let mut i: u32 = 0;
    proof {
        vstd::arithmetic::power2::lemma2_to64();
    }
    while i < attempt
        invariant
            0 <= i <= attempt,
            backoff_spec(initial_ms as nat, i as nat) <= u64::MAX ==> b == backoff_spec(
                initial_ms as nat,
                i as nat,
            ),
            backoff_spec(initial_ms as nat, i as nat) > u64::MAX ==> b == u64::MAX,
        decreases attempt - i,
    {
        let ghost pre = b;
        if b > u64::MAX / 2 {
            b = u64::MAX;
        } else {
            b = b * 2;
        }
        proof {
            lemma_pow2_unfold((i + 1) as nat);
            assert(initial_ms as nat * pow2((i + 1) as nat) == 2 * (initial_ms as nat * pow2(
                i as nat,
            ))) by (nonlinear_arith)
                requires
                    pow2((i + 1) as nat) == 2 * pow2(i as nat),
            ;
        }
        i += 1;
    }
    b
}

impl DeskShareError {
    /// The recovery policy: transient peer failures are retried with
    /// backoff; a peer lacking a chunk invites asking another; everything
    /// surfaced past the engine's own retries is final.
    pub open spec fn recovery_strategy_spec(self) -> RecoveryStrategy {
        match self {
            DeskShareError::PeerUnavailable => RecoveryStrategy::Retry {
                max_attempts: 3,
                backoff_ms: 1000,
            },
            DeskShareError::ChunkNotFound => RecoveryStrategy::Fallback,
            _ => RecoveryStrategy::Fail,
        }
    }

    pub fn recovery_strategy(&self) -> (r: RecoveryStrategy)
        ensures
            r == self.recovery_strategy_spec(),
    {
        match self {
            DeskShareError::PeerUnavailable => RecoveryStrategy::Retry {
                max_attempts: 3,
                backoff_ms: 1000,
            },
            DeskShareError::ChunkNotFound => RecoveryStrategy::Fallback,
            _ => RecoveryStrategy::Fail,
        }
    }

    /// A short, fixed description of the error.
    pub fn user_message(&self) -> (r: String)
        ensures
            r@ == self.user_message_spec(),
    {
        match self {
            DeskShareError::ManifestNotFound => String::from_str("manifest not found"),
            DeskShareError::DuplicateManifest => String::from_str("conflicting manifest already published"),
            DeskShareError::IntegrityCheckFailed => String::from_str("integrity check failed"),
            DeskShareError::PeerUnavailable => String::from_str("peer unavailable"),
            DeskShareError::LocalIoError => String::from_str("local storage error"),
            DeskShareError::Cancelled => String::from_str("cancelled"),
            DeskShareError::SessionNotFound => String::from_str("download session not found"),
            DeskShareError::ChunkNotFound => String::from_str("chunk not found"),
        }
    }

    pub open spec fn user_message_spec(self) -> Seq<char> {
        match self {
            DeskShareError::ManifestNotFound => "manifest not found"@,
            DeskShareError::DuplicateManifest => "conflicting manifest already published"@,
            DeskShareError::IntegrityCheckFailed => "integrity check failed"@,
            DeskShareError::PeerUnavailable => "peer unavailable"@,
            DeskShareError::LocalIoError => "local storage error"@,
            DeskShareError::Cancelled => "cancelled"@,
            DeskShareError::SessionNotFound => "download session not found"@,
            DeskShareError::ChunkNotFound => "chunk not found"@,
        }
    }
}

} // verus!
