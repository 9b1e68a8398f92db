//! The error type shared by the queue modules.
use vstd::prelude::*;

verus! {

/// Everything the queueing layer can refuse, with what it knows about why.
#[derive(Debug, PartialEq, Eq)]
pub enum SyncEngineError {
    /// An envelope, or a stored attribute of one, that cannot be understood.
    InvalidEnvelope(String),
    /// The emergency guard is full: `current` of at most `max` admissions
    /// are on record for the last `window_secs` seconds.
    EmergencyQueueLimitExceeded { current: usize, max: usize, window_secs: u64 },
    /// The named account has never been seeded.
    NoSequenceReserved(String),
    /// The named account has been given the last number there is.
    SequenceExhausted(String),
    /// A sequence number was given back that is not the last one handed out.
    SequenceOutOfOrder { account: String, requested: i64, last_reserved: i64 },
    /// The inputs of a spend-cap proof, or the proof's own form, are unusable.
    ZkProofInput(String),
    /// The range prover failed.
    ZkProofGeneration(String),
    /// The proof is well formed and does not hold.
    ZkProofVerification(String),
}

/// A [`SyncEngineError`] with its texts as character sequences.
pub enum ErrorView {
    InvalidEnvelope(Seq<char>),
    EmergencyQueueLimitExceeded { current: usize, max: usize, window_secs: u64 },
    NoSequenceReserved(Seq<char>),
    SequenceExhausted(Seq<char>),
    SequenceOutOfOrder { account: Seq<char>, requested: i64, last_reserved: i64 },
    ZkProofInput(Seq<char>),
    ZkProofGeneration(Seq<char>),
    ZkProofVerification(Seq<char>),
}

impl View for SyncEngineError {
    type V = ErrorView;

    open spec fn view(&self) -> ErrorView {
        match *self {
            SyncEngineError::InvalidEnvelope(text) => ErrorView::InvalidEnvelope(text@),
            SyncEngineError::EmergencyQueueLimitExceeded { current, max, window_secs } =>
                ErrorView::EmergencyQueueLimitExceeded { current, max, window_secs },
            SyncEngineError::NoSequenceReserved(account) => ErrorView::NoSequenceReserved(account@),
            SyncEngineError::SequenceExhausted(account) => ErrorView::SequenceExhausted(account@),
            SyncEngineError::SequenceOutOfOrder { account, requested, last_reserved } =>
                ErrorView::SequenceOutOfOrder { account: account@, requested, last_reserved },
            SyncEngineError::ZkProofInput(text) => ErrorView::ZkProofInput(text@),
            SyncEngineError::ZkProofGeneration(text) => ErrorView::ZkProofGeneration(text@),
            SyncEngineError::ZkProofVerification(text) => ErrorView::ZkProofVerification(text@),
        }
    }
}

/// The view of an error keeps its variant, its numbers and every character of
/// its texts: two errors with the same view are the same but for where their
/// texts are stored.
pub proof fn error_views_keep_everything(a: SyncEngineError, b: SyncEngineError)
    ensures
        a@ == b@ <==> match (a, b) {
            (SyncEngineError::InvalidEnvelope(s), SyncEngineError::InvalidEnvelope(t)) => s@ == t@,
            (
                SyncEngineError::EmergencyQueueLimitExceeded { current, max, window_secs },
                SyncEngineError::EmergencyQueueLimitExceeded {
                    current: current_b,
                    max: max_b,
                    window_secs: window_secs_b,
                },
            ) => current == current_b && max == max_b && window_secs == window_secs_b,
            (SyncEngineError::NoSequenceReserved(s), SyncEngineError::NoSequenceReserved(t)) => s@
                == t@,
            (SyncEngineError::SequenceExhausted(s), SyncEngineError::SequenceExhausted(t)) => s@
                == t@,
            (
                SyncEngineError::SequenceOutOfOrder { account, requested, last_reserved },
                SyncEngineError::SequenceOutOfOrder {
                    account: account_b,
                    requested: requested_b,
                    last_reserved: last_reserved_b,
                },
            ) => account@ == account_b@ && requested == requested_b && last_reserved
                == last_reserved_b,
            (SyncEngineError::ZkProofInput(s), SyncEngineError::ZkProofInput(t)) => s@ == t@,
            (SyncEngineError::ZkProofGeneration(s), SyncEngineError::ZkProofGeneration(t)) => s@
                == t@,
            (SyncEngineError::ZkProofVerification(s), SyncEngineError::ZkProofVerification(t)) => s@
                == t@,
            _ => false,
        },
{
}

/// The text of an error that has one is the text of its view, under the same
/// variant.
pub proof fn error_texts_are_kept(error: SyncEngineError)
    ensures
        match error {
            SyncEngineError::InvalidEnvelope(text) => error@ matches ErrorView::InvalidEnvelope(t)
                && t == text@,
            SyncEngineError::EmergencyQueueLimitExceeded { current, max, window_secs } =>
                error@ matches ErrorView::EmergencyQueueLimitExceeded {
                    current: c,
                    max: m,
                    window_secs: w,
                } && c == current && m == max && w == window_secs,
            SyncEngineError::NoSequenceReserved(account) =>
                error@ matches ErrorView::NoSequenceReserved(t) && t == account@,
            SyncEngineError::SequenceExhausted(account) =>
                error@ matches ErrorView::SequenceExhausted(t) && t == account@,
            SyncEngineError::SequenceOutOfOrder { account, requested, last_reserved } =>
                error@ matches ErrorView::SequenceOutOfOrder {
                    account: t,
                    requested: r,
                    last_reserved: l,
                } && t == account@ && r == requested && l == last_reserved,
            SyncEngineError::ZkProofInput(text) => error@ matches ErrorView::ZkProofInput(t) && t
                == text@,
            SyncEngineError::ZkProofGeneration(text) => error@ matches ErrorView::ZkProofGeneration(
                t,
            ) && t == text@,
            SyncEngineError::ZkProofVerification(text) =>
                error@ matches ErrorView::ZkProofVerification(t) && t == text@,
        },
{
}

} // verus!
