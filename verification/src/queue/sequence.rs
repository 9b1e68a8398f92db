//! Sequence numbers for transactions that are queued while offline, and the
//! cached signer sets of multisig accounts.
//!
//! An account's sequence number goes up by exactly one with each transaction.
//! Transactions queued offline therefore get distinct, consecutive numbers
//! before they are signed: two envelopes signed against one number exclude
//! each other, and only one of them can ever settle.
//!
//! A manager belongs to one owner on one thread. It is neither `Send` nor
//! `Sync`, so that sharing it takes an explicit lock, and the lock makes the
//! calls follow one another.
use std::marker::PhantomData;
use std::rc::Rc;
use vstd::hash_map::StringHashMap;
use vstd::prelude::*;

use crate::bytes;
use crate::errors::{ErrorView, SyncEngineError};

verus! {

/// What comparing the local baseline with the chain has shown.
#[derive(Debug, Clone, PartialEq, Eq)]
pub enum ReconciliationOutcome {
    /// The chain is where the baseline is, or there was no baseline yet.
    NoDrift,
    /// The chain has gone past the baseline. Lists the reserved numbers that
    /// the chain has used up, and the new baseline.
    BehindReality { stale_sequences: Vec<i64>, new_baseline: i64 },
    /// The chain is below the baseline; nothing has been changed.
    AheadOfReality { observed: i64, baseline: i64 },
}

/// A [`ReconciliationOutcome`] with its list as a sequence.
pub enum OutcomeView {
    NoDrift,
    BehindReality { stale_sequences: Seq<i64>, new_baseline: i64 },
    AheadOfReality { observed: i64, baseline: i64 },
}

impl View for ReconciliationOutcome {
    type V = OutcomeView;

    open spec fn view(&self) -> OutcomeView {
        match *self {
            ReconciliationOutcome::NoDrift => OutcomeView::NoDrift,
            ReconciliationOutcome::BehindReality { stale_sequences, new_baseline } =>
                OutcomeView::BehindReality { stale_sequences: stale_sequences@, new_baseline },
            ReconciliationOutcome::AheadOfReality { observed, baseline } =>
                OutcomeView::AheadOfReality { observed, baseline },
        }
    }
}

/// What a manager knows: per account, the number last seen on the chain and
/// the number last reserved.
#[verifier::ext_equal]
pub struct SequenceState {
    pub baseline: Map<Seq<char>, i64>,
    pub reserved: Map<Seq<char>, i64>,
}

/// The numbers above `from` up to `to`, in order.
pub open spec fn numbers_above(from: i64, to: i64) -> Seq<i64> {
    if from < to {
        Seq::new((to - from) as nat, |i: int| (from + 1 + i) as i64)
    } else {
        Seq::empty()
    }
}

impl SequenceState {
    /// Nothing known of any account.
    pub open spec fn empty() -> Self {
        SequenceState { baseline: Map::empty(), reserved: Map::empty() }
    }

    /// Whether `account` has both numbers or neither, and what is reserved for
    /// it is not below what the chain has reached.
    pub open spec fn keeps_both(self, account: Seq<char>) -> bool {
        &&& self.baseline.contains_key(account) == self.reserved.contains_key(account)
        &&& self.baseline.contains_key(account) ==> self.baseline[account]
            <= self.reserved[account]
    }

    /// `account` starts afresh from the chain's `sequence`.
    pub open spec fn seeded(self, account: Seq<char>, sequence: i64) -> Self {
        SequenceState {
            baseline: self.baseline.insert(account, sequence),
            reserved: self.reserved.insert(account, sequence),
        }
    }

    /// Whether there is a number left to reserve for `account`.
    pub open spec fn has_next(self, account: Seq<char>) -> bool {
        self.reserved.contains_key(account) && self.reserved[account] < i64::MAX
    }

    /// `account`, if there is a number left for it, has one number more
    /// reserved.
    pub open spec fn after_reserve(self, account: Seq<char>) -> Self {
        if self.has_next(account) {
            SequenceState {
                reserved: self.reserved.insert(account, (self.reserved[account] + 1) as i64),
                ..self
            }
        } else {
            self
        }
    }

    /// `sequence`, if it is the last reserved number of `account`, is given
    /// back. What the chain has already reached is not given out again: the
    /// last reserved number does not fall below the baseline.
    pub open spec fn after_release(self, account: Seq<char>, sequence: i64) -> Self {
        if self.reserved.contains_key(account) && self.reserved[account] == sequence {
            let freed = if sequence <= self.baseline[account] {
                self.baseline[account]
            } else {
                (sequence - 1) as i64
            };
            SequenceState { reserved: self.reserved.insert(account, freed), ..self }
        } else {
            self
        }
    }

    /// What an observation of the chain makes of the state.
    pub open spec fn reconciled(self, account: Seq<char>, observed: i64) -> Self {
        if !self.baseline.contains_key(account) {
            self.seeded(account, observed)
        } else if observed <= self.baseline[account] {
            self
        } else {
            SequenceState {
                baseline: self.baseline.insert(account, observed),
                reserved: if observed > self.reserved[account] {
                    self.reserved.insert(account, observed)
                } else {
                    self.reserved
                },
            }
        }
    }

    /// What an observation of the chain is answered with.
    pub open spec fn reconciliation(self, account: Seq<char>, observed: i64) -> OutcomeView {
        if !self.baseline.contains_key(account) || observed == self.baseline[account] {
            OutcomeView::NoDrift
        } else if observed < self.baseline[account] {
            OutcomeView::AheadOfReality { observed, baseline: self.baseline[account] }
        } else {
            let last = self.reserved[account];
            OutcomeView::BehindReality {
                stale_sequences: numbers_above(
                    self.baseline[account],
                    if observed < last {
                        observed
                    } else {
                        last
                    },
                ),
                new_baseline: observed,
            }
        }
    }
}

/// The two numbers of an account. What is reserved is never below what the
/// chain has reached.
#[derive(Debug, Clone, Copy)]
struct AccountNumbers {
    baseline: i64,
    reserved: i64,
}

impl AccountNumbers {
    #[verifier::type_invariant]
    spec fn well_formed(self) -> bool {
        self.baseline <= self.reserved
    }
}

/// Reserves sequence numbers, per account.
pub struct SequenceReservationManager {
    accounts: StringHashMap<AccountNumbers>,
    /// Keeps the type on one thread.
    _single_owner: PhantomData<Rc<()>>,
}

impl View for SequenceReservationManager {
    type V = SequenceState;

    closed spec fn view(&self) -> SequenceState {
        SequenceState {
            baseline: self.accounts@.map_values(|numbers: AccountNumbers| numbers.baseline),
            reserved: self.accounts@.map_values(|numbers: AccountNumbers| numbers.reserved),
        }
    }
}

impl Default for SequenceReservationManager {
    fn default() -> (manager: Self)
        ensures
            manager@ == SequenceState::empty(),
            manager@.baseline == Map::<Seq<char>, i64>::empty(),
            manager@.reserved == Map::<Seq<char>, i64>::empty(),
    {
        Self::new()
    }
}

impl SequenceReservationManager {
    /// A manager that knows no account.
    pub fn new() -> (manager: Self)
        ensures
            manager@ == SequenceState::empty(),
            manager@.baseline == Map::<Seq<char>, i64>::empty(),
            manager@.reserved == Map::<Seq<char>, i64>::empty(),
    {
        let manager = SequenceReservationManager {
            accounts: StringHashMap::new(),
            _single_owner: PhantomData,
        };
        assert(manager@ =~= SequenceState::empty());
        manager
    }

    /// Replaces both numbers of an account.
    fn set(&mut self, account: String, numbers: AccountNumbers)
        ensures
            final(self)@ == (SequenceState {
                baseline: old(self)@.baseline.insert(account@, numbers.baseline),
                reserved: old(self)@.reserved.insert(account@, numbers.reserved),
            }),
    {
        self.accounts.insert(account, numbers);
        assert(self@.baseline =~= old(self)@.baseline.insert(account@, numbers.baseline));
        assert(self@.reserved =~= old(self)@.reserved.insert(account@, numbers.reserved));
    }

    /// Both numbers of an account, if it is known.
    fn numbers(&self, account: &str) -> (numbers: Option<AccountNumbers>)
        ensures
            match numbers {
                Some(numbers) => {
                    &&& self@.baseline.contains_key(account@)
                    &&& self@.reserved.contains_key(account@)
                    &&& numbers.baseline == self@.baseline[account@]
                    &&& numbers.reserved == self@.reserved[account@]
                    &&& numbers.baseline <= numbers.reserved
                },
                None => {
                    &&& !self@.baseline.contains_key(account@)
                    &&& !self@.reserved.contains_key(account@)
                },
            },
    {
        match self.accounts.get(account) {
            Some(numbers) => {
                proof {
                    use_type_invariant(numbers);
                }
                Some(*numbers)
            },
            None => None,
        }
    }

    /// Takes over the sequence number of `account` as last seen on the
    /// chain. Reservations go on from there.
    pub fn seed<A: Into<String>>(&mut self, account: A, current_chain_sequence: i64)
        ensures
            exists|name: String| #[trigger]
                call_ensures(A::into, (account,), name) && {
                    &&& final(self)@ == old(self)@.seeded(name@, current_chain_sequence)
                    &&& final(self)@.baseline == old(self)@.baseline.insert(
                        name@,
                        current_chain_sequence,
                    )
                    &&& final(self)@.reserved == old(self)@.reserved.insert(
                        name@,
                        current_chain_sequence,
                    )
                },
    {
        let name: String = account.into();
        assert(call_ensures(A::into, (account,), name));
        self.set(
            name,
            AccountNumbers {
                baseline: current_chain_sequence,
                reserved: current_chain_sequence,
            },
        );
    }

    /// Reserves the next number of `account`, which must have been seeded.
    /// The number is one above the last reserved one, and above the baseline.
    /// Once the largest number there is has been given out, none is left.
    pub fn reserve_next(&mut self, account: &str) -> (result: Result<i64, SyncEngineError>)
        ensures
            old(self)@.keeps_both(account@),
            final(self)@ == old(self)@.after_reserve(account@),
            match result {
                Ok(next) => {
                    &&& old(self)@.has_next(account@)
                    &&& next == old(self)@.reserved[account@] + 1
                    &&& next > old(self)@.baseline[account@]
                },
                Err(e) => {
                    &&& !old(self)@.has_next(account@)
                    &&& e@ == if old(self)@.reserved.contains_key(account@) {
                        ErrorView::SequenceExhausted(account@)
                    } else {
                        ErrorView::NoSequenceReserved(account@)
                    }
                },
            },
            final(self)@.baseline == old(self)@.baseline,
            old(self)@.reserved.contains_key(account@) && old(self)@.reserved[account@] < i64::MAX
                ==> (result matches Ok(next) && next == old(self)@.reserved[account@] + 1
                && final(self)@.reserved == old(self)@.reserved.insert(account@, next)),
            old(self)@.reserved.contains_key(account@) && old(self)@.reserved[account@] == i64::MAX
                ==> (result matches Err(SyncEngineError::SequenceExhausted(name)) && name@
                == account@ && final(self)@.reserved == old(self)@.reserved),
            !old(self)@.reserved.contains_key(account@) ==> (result matches Err(
                SyncEngineError::NoSequenceReserved(name),
            ) && name@ == account@ && final(self)@.reserved == old(self)@.reserved),
    {
        let numbers = match self.numbers(account) {
            Some(numbers) => numbers,
            None => {
                return Err(SyncEngineError::NoSequenceReserved(String::from(account)));
            },
        };
        if numbers.reserved == i64::MAX {
            return Err(SyncEngineError::SequenceExhausted(String::from(account)));
        }
        let next = numbers.reserved + 1;
        self.set(
            String::from(account),
            AccountNumbers { baseline: numbers.baseline, reserved: next },
        );
        assert(self@.baseline =~= old(self)@.baseline);
        Ok(next)
    }

    /// The number last reserved for `account`, if it has been seeded.
    pub fn last_reserved(&self, account: &str) -> (last: Option<i64>)
        ensures
            last == self@.reserved.get(account@),
            self@.keeps_both(account@),
    {
        match self.numbers(account) {
            Some(numbers) => Some(numbers.reserved),
            None => None,
        }
    }

    /// The number of `account` last seen on the chain, if it has been seeded.
    pub fn baseline(&self, account: &str) -> (sequence: Option<i64>)
        ensures
            sequence == self@.baseline.get(account@),
            self@.keeps_both(account@),
    {
        match self.numbers(account) {
            Some(numbers) => Some(numbers.baseline),
            None => None,
        }
    }

    /// Takes back the last reservation of `account`, as when the envelope
    /// could not be made. `sequence` has to be the number last reserved. A
    /// number that the chain has already reached stays used.
    pub fn release(&mut self, account: &str, sequence: i64) -> (result: Result<
        (),
        SyncEngineError,
    >)
        ensures
            old(self)@.keeps_both(account@),
            final(self)@ == old(self)@.after_release(account@, sequence),
            match result {
                Ok(_) => {
                    &&& old(self)@.reserved.contains_key(account@)
                    &&& old(self)@.reserved[account@] == sequence
                },
                Err(e) => if old(self)@.reserved.contains_key(account@) {
                    &&& old(self)@.reserved[account@] != sequence
                    &&& e@ == ErrorView::SequenceOutOfOrder {
                        account: account@,
                        requested: sequence,
                        last_reserved: old(self)@.reserved[account@],
                    }
                } else {
                    e@ == ErrorView::NoSequenceReserved(account@)
                },
            },
            final(self)@.baseline == old(self)@.baseline,
            old(self)@.reserved.contains_key(account@) && old(self)@.reserved[account@] == sequence
                ==> {
                &&& result is Ok
                &&& final(self)@.reserved.dom() == old(self)@.reserved.dom()
                &&& sequence > old(self)@.baseline[account@] ==> final(self)@.reserved
                    == old(self)@.reserved.insert(account@, (sequence - 1) as i64)
                &&& sequence <= old(self)@.baseline[account@] ==> final(self)@.reserved
                    == old(self)@.reserved
            },
            old(self)@.reserved.contains_key(account@) && old(self)@.reserved[account@] != sequence
                ==> (result matches Err(
                SyncEngineError::SequenceOutOfOrder { account: name, requested, last_reserved },
            ) && name@ == account@ && requested == sequence && last_reserved
                == old(self)@.reserved[account@] && final(self)@.reserved == old(self)@.reserved),
            !old(self)@.reserved.contains_key(account@) ==> (result matches Err(
                SyncEngineError::NoSequenceReserved(name),
            ) && name@ == account@ && final(self)@.reserved == old(self)@.reserved),
    {
        let numbers = match self.numbers(account) {
            Some(numbers) => numbers,
            None => {
                return Err(SyncEngineError::NoSequenceReserved(String::from(account)));
            },
        };
        if numbers.reserved != sequence {
            return Err(
                SyncEngineError::SequenceOutOfOrder {
                    account: String::from(account),
                    requested: sequence,
                    last_reserved: numbers.reserved,
                },
            );
        }
        let freed: i64 = if sequence <= numbers.baseline {
            numbers.baseline
        } else {
            sequence - 1
        };
        self.set(
            String::from(account),
            AccountNumbers { baseline: numbers.baseline, reserved: freed },
        );
        assert(self@.baseline =~= old(self)@.baseline);
        Ok(())
    }

    /// Compares the baseline of `account` with a fresh observation of the
    /// chain, moves it forward where the chain is ahead, and lists the
    /// reserved numbers that the chain has used up.
    pub fn reconcile(&mut self, account: &str, observed_chain_sequence: i64) -> (outcome:
        ReconciliationOutcome)
        ensures
            old(self)@.keeps_both(account@),
            outcome@ == old(self)@.reconciliation(account@, observed_chain_sequence),
            final(self)@ == old(self)@.reconciled(account@, observed_chain_sequence),
            match outcome {
                ReconciliationOutcome::NoDrift => old(self)@.baseline.contains_key(account@)
                    ==> old(self)@.baseline[account@] == observed_chain_sequence,
                ReconciliationOutcome::AheadOfReality { observed, baseline } => {
                    &&& old(self)@.baseline.contains_key(account@)
                    &&& observed == observed_chain_sequence
                    &&& baseline == old(self)@.baseline[account@]
                    &&& observed < baseline
                },
                ReconciliationOutcome::BehindReality { stale_sequences, new_baseline } => {
                    &&& old(self)@.baseline.contains_key(account@)
                    &&& new_baseline == observed_chain_sequence
                    &&& new_baseline > old(self)@.baseline[account@]
                    &&& forall|i: int|
                        0 <= i < stale_sequences@.len() ==> #[trigger] stale_sequences@[i]
                            == old(self)@.baseline[account@] + 1 + i
                    &&& stale_sequences@.len() == if observed_chain_sequence
                        < old(self)@.reserved[account@] {
                        observed_chain_sequence - old(self)@.baseline[account@]
                    } else {
                        old(self)@.reserved[account@] - old(self)@.baseline[account@]
                    }
                },
            },
            old(self)@.baseline.contains_key(account@) && observed_chain_sequence
                <= old(self)@.baseline[account@] ==> final(self)@.baseline == old(self)@.baseline
                && final(self)@.reserved == old(self)@.reserved,
            old(self)@.baseline.contains_key(account@) && observed_chain_sequence
                > old(self)@.baseline[account@] ==> {
                &&& final(self)@.baseline == old(self)@.baseline.insert(
                    account@,
                    observed_chain_sequence,
                )
                &&& observed_chain_sequence > old(self)@.reserved[account@]
                    ==> final(self)@.reserved == old(self)@.reserved.insert(
                    account@,
                    observed_chain_sequence,
                )
                &&& observed_chain_sequence <= old(self)@.reserved[account@]
                    ==> final(self)@.reserved == old(self)@.reserved
            },
            !old(self)@.baseline.contains_key(account@) ==> {
                &&& final(self)@.baseline == old(self)@.baseline.insert(
                    account@,
                    observed_chain_sequence,
                )
                &&& final(self)@.reserved == old(self)@.reserved.insert(
                    account@,
                    observed_chain_sequence,
                )
            },
    {
        let numbers = match self.numbers(account) {
            Some(numbers) => numbers,
            None => {
                self.seed(account, observed_chain_sequence);
                return ReconciliationOutcome::NoDrift;
            },
        };
        let current_baseline: i64 = numbers.baseline;
        let current_reserved: i64 = numbers.reserved;
        if observed_chain_sequence == current_baseline {
            return ReconciliationOutcome::NoDrift;
        }
        if observed_chain_sequence < current_baseline {
            return ReconciliationOutcome::AheadOfReality {
                observed: observed_chain_sequence,
                baseline: current_baseline,
            };
        }
        let stale_end: i64 = if observed_chain_sequence < current_reserved {
            observed_chain_sequence
        } else {
            current_reserved
        };
        let mut stale_sequences: Vec<i64> = Vec::new();
        let mut number: i64 = current_baseline;
        let ghost all = numbers_above(current_baseline, stale_end);
        while number < stale_end
            invariant
                current_baseline <= number <= stale_end,
                all == numbers_above(current_baseline, stale_end),
                stale_sequences@ == all.take(number - current_baseline),
            decreases stale_end - number,
        {
            number = number + 1;
            stale_sequences.push(number);
            assert(stale_sequences@ =~= all.take(number - current_baseline));
        }
        assert(stale_sequences@ =~= all);
        let reserved: i64 = if observed_chain_sequence > current_reserved {
            observed_chain_sequence
        } else {
            current_reserved
        };
        self.set(
            String::from(account),
            AccountNumbers { baseline: observed_chain_sequence, reserved },
        );
        assert(self@ =~= old(self)@.reconciled(account@, observed_chain_sequence));
        ReconciliationOutcome::BehindReality {
            stale_sequences,
            new_baseline: observed_chain_sequence,
        }
    }
}

/// The cached signers of an account: their weights by public key, and the
/// weight that a transaction has to reach.
#[verifier::ext_equal]
pub struct SignersView {
    pub weights: Map<Seq<u8>, u32>,
    pub threshold: u32,
}

/// The weights by public key that a list of signers gives. A key that stands
/// in the list more than once has the last of its weights.
pub open spec fn weights_of(signers: Seq<([u8; 32], u32)>) -> Map<Seq<u8>, u32>
    decreases signers.len(),
{
    if signers.len() == 0 {
        Map::empty()
    } else {
        weights_of(signers.drop_last()).insert(signers.last().0@, signers.last().1)
    }
}

/// A key has the weight of the last place at which it stands in the list.
pub proof fn last_listed_weight_counts(signers: Seq<([u8; 32], u32)>, at: int)
    requires
        0 <= at < signers.len(),
        forall|later: int|
            at < later < signers.len() ==> (#[trigger] signers[later]).0@ != signers[at].0@,
    ensures
        weights_of(signers).contains_key(signers[at].0@),
        weights_of(signers)[signers[at].0@] == signers[at].1,
    decreases signers.len(),
{
    if at < signers.len() - 1 {
        let shorter = signers.drop_last();
        assert(forall|i: int| 0 <= i < shorter.len() ==> #[trigger] shorter[i] == signers[i]);
        assert(signers[signers.len() - 1].0@ != signers[at].0@);
        last_listed_weight_counts(shorter, at);
    }
}

/// A key that does not stand in the list has no weight.
pub proof fn unlisted_keys_have_no_weight(signers: Seq<([u8; 32], u32)>, key: Seq<u8>)
    requires
        forall|i: int| 0 <= i < signers.len() ==> (#[trigger] signers[i]).0@ != key,
    ensures
        !weights_of(signers).contains_key(key),
    decreases signers.len(),
{
    if signers.len() > 0 {
        let shorter = signers.drop_last();
        assert(forall|i: int| 0 <= i < shorter.len() ==> #[trigger] shorter[i] == signers[i]);
        assert(signers[signers.len() - 1].0@ != key);
        unlisted_keys_have_no_weight(shorter, key);
    }
}

/// Whether no public key stands in a list of signers twice.
spec fn distinct_keys(signers: Seq<([u8; 32], u32)>) -> bool {
    forall|i: int, j: int|
        0 <= i < j < signers.len() ==> #[trigger] signers[i].0@ != #[trigger] signers[j].0@
}

/// The signers of an account, each with its weight and none twice.
#[derive(Debug)]
struct AccountSigners {
    signers: Vec<([u8; 32], u32)>,
    threshold: u32,
}

impl View for AccountSigners {
    type V = SignersView;

    closed spec fn view(&self) -> SignersView {
        SignersView { weights: weights_of(self.signers@), threshold: self.threshold }
    }
}

/// Giving a listed key another weight changes the weight of that key only.
proof fn reweighing_is_inserting(signers: Seq<([u8; 32], u32)>, at: int, weight: u32)
    requires
        distinct_keys(signers),
        0 <= at < signers.len(),
    ensures
        weights_of(signers.update(at, (signers[at].0, weight))) == weights_of(signers).insert(
            signers[at].0@,
            weight,
        ),
    decreases signers.len(),
{
    let updated = signers.update(at, (signers[at].0, weight));
    let before = signers.drop_last();
    if at == signers.len() - 1 {
        assert(updated.drop_last() =~= before);
    } else {
        assert(updated.drop_last() =~= before.update(at, (before[at].0, weight)));
        reweighing_is_inserting(before, at, weight);
    }
    assert(weights_of(updated) =~= weights_of(signers).insert(signers[at].0@, weight));
}

/// Gives `pubkey` its weight in a list of signers: where the key stands, or
/// at the end.
fn put_signer(signers: &mut Vec<([u8; 32], u32)>, pubkey: [u8; 32], weight: u32)
    requires
        distinct_keys(old(signers)@),
    ensures
        distinct_keys(final(signers)@),
        weights_of(final(signers)@) == weights_of(old(signers)@).insert(pubkey@, weight),
{
    let mut i: usize = 0;
    while i < signers.len()
        invariant
            i <= signers.len(),
            signers@ == old(signers)@,
            distinct_keys(signers@),
            forall|j: int| 0 <= j < i ==> #[trigger] signers@[j].0@ != pubkey@,
        decreases signers.len() - i,
    {
        if bytes::same_bytes(&signers[i].0, &pubkey) {
            proof {
                reweighing_is_inserting(signers@, i as int, weight);
            }
            assert(signers@[i as int].0 =~= pubkey);
            signers.set(i, (pubkey, weight));
            return ;
        }
        i += 1;
    }
    signers.push((pubkey, weight));
    assert(signers@.drop_last() =~= old(signers)@);
}

impl AccountSigners {
    #[verifier::type_invariant]
    spec fn well_formed(self) -> bool {
        distinct_keys(self.signers@)
    }

    /// The signers of a list. A key that stands in it more than once keeps
    /// the last of its weights.
    fn collect(list: Vec<([u8; 32], u32)>, threshold: u32) -> (account: Self)
        ensures
            account@ == (SignersView { weights: weights_of(list@), threshold }),
    {
        let mut signers: Vec<([u8; 32], u32)> = Vec::new();
        let mut i: usize = 0;
        while i < list.len()
            invariant
                i <= list.len(),
                distinct_keys(signers@),
                weights_of(signers@) == weights_of(list@.take(i as int)),
            decreases list.len() - i,
        {
            put_signer(&mut signers, list[i].0, list[i].1);
            i += 1;
            assert(list@.take(i as int).drop_last() =~= list@.take(i - 1));
        }
        assert(list@.take(i as int) =~= list@);
        AccountSigners { signers, threshold }
    }

    /// The weight of `pubkey`, if it is one of the signers.
    fn weight(&self, pubkey: &[u8; 32]) -> (weight: Option<u32>)
        ensures
            weight == self@.weights.get(pubkey@),
    {
        let mut rest: usize = self.signers.len();
        assert(self.signers@.take(rest as int) =~= self.signers@);
        while rest > 0
            invariant
                rest <= self.signers.len(),
                self@.weights.get(pubkey@) == weights_of(self.signers@.take(rest as int)).get(
                    pubkey@,
                ),
            decreases rest,
        {
            rest -= 1;
            assert(self.signers@.take(rest + 1).drop_last() =~= self.signers@.take(rest as int));
            if bytes::same_bytes(&self.signers[rest].0, pubkey) {
                return Some(self.signers[rest].1);
            }
        }
        None
    }
}

/// The signers and the signing threshold of multisig accounts, as last seen
/// while the device was online.
///
/// Neither can be fetched offline, so both are seeded from a snapshot. One
/// threshold is kept per account: the caller seeds the one that applies to
/// what it means to queue.
pub struct MultisigAccountRegistry {
    accounts: StringHashMap<AccountSigners>,
}

impl View for MultisigAccountRegistry {
    type V = Map<Seq<char>, SignersView>;

    closed spec fn view(&self) -> Map<Seq<char>, SignersView> {
        self.accounts@.map_values(|signers: AccountSigners| signers@)
    }
}

impl Default for MultisigAccountRegistry {
    fn default() -> (registry: Self)
        ensures
            registry@ == Map::<Seq<char>, SignersView>::empty(),
    {
        let registry = MultisigAccountRegistry { accounts: StringHashMap::new() };
        assert(registry@ =~= Map::empty());
        registry
    }
}

impl MultisigAccountRegistry {
    /// A registry that knows no account.
    pub fn new() -> (registry: Self)
        ensures
            registry@ == Map::<Seq<char>, SignersView>::empty(),
    {
        Self::default()
    }

    /// Caches the signers and the threshold of `account`, in place of what
    /// was cached for it before.
    pub fn seed<A: Into<String>>(
        &mut self,
        account: A,
        signers: Vec<([u8; 32], u32)>,
        threshold: u32,
    )
        ensures
            exists|name: String| #[trigger]
                call_ensures(A::into, (account,), name) && final(self)@ == old(self)@.insert(
                    name@,
                    SignersView { weights: weights_of(signers@), threshold },
                ),
    {
        let name: String = account.into();
        assert(call_ensures(A::into, (account,), name));
        self.accounts.insert(name, AccountSigners::collect(signers, threshold));
        assert(self@ =~= old(self)@.insert(
            name@,
            SignersView { weights: weights_of(signers@), threshold },
        ));
    }

    /// The cached weight of `pubkey` on `account`. `None` where the account
    /// has not been seeded, or the key is not one of its signers.
    pub fn signer_weight(&self, account: &str, pubkey: &[u8; 32]) -> (weight: Option<u32>)
        ensures
            weight == if self@.contains_key(account@) {
                self@[account@].weights.get(pubkey@)
            } else {
                None
            },
    {
        match self.accounts.get(account) {
            Some(signers) => signers.weight(pubkey),
            None => None,
        }
    }

    /// The cached threshold of `account`, if it has been seeded.
    pub fn threshold(&self, account: &str) -> (threshold: Option<u32>)
        ensures
            threshold == if self@.contains_key(account@) {
                Some(self@[account@].threshold)
            } else {
                None
            },
    {
        match self.accounts.get(account) {
            Some(signers) => Some(signers.threshold),
            None => None,
        }
    }

    /// Whether `pubkey` is one of the cached signers of `account`.
    pub fn is_known_signer(&self, account: &str, pubkey: &[u8; 32]) -> (known: bool)
        ensures
            known == (self@.contains_key(account@) && self@[account@].weights.contains_key(
                pubkey@,
            )),
    {
        self.signer_weight(account, pubkey).is_some()
    }
}

} // verus!
