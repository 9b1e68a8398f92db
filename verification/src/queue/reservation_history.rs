//! What holds of a sequence reservation manager over a whole history of
//! calls: which numbers an account is given, which it may be given again, and
//! how its reservations stand to the chain.
use vstd::prelude::*;

use crate::queue::sequence::{OutcomeView, SequenceState};

verus! {

/// A call of a sequence reservation manager that may change it.
pub enum SequenceOp {
    Seed { account: Seq<char>, sequence: i64 },
    Reserve { account: Seq<char> },
    Release { account: Seq<char>, sequence: i64 },
    Reconcile { account: Seq<char>, observed: i64 },
}

impl SequenceOp {
    /// The account that the call is about.
    pub open spec fn account(self) -> Seq<char> {
        match self {
            SequenceOp::Seed { account, .. } => account,
            SequenceOp::Reserve { account } => account,
            SequenceOp::Release { account, .. } => account,
            SequenceOp::Reconcile { account, .. } => account,
        }
    }
}

impl SequenceState {
    /// Whether each account has both a baseline and a last reserved number,
    /// or neither, and no reservation is below what the chain has reached.
    pub open spec fn well_formed(self) -> bool {
        forall|account: Seq<char>| #[trigger] self.keeps_both(account)
    }

    /// The state that the call leaves behind.
    pub open spec fn after(self, op: SequenceOp) -> Self {
        match op {
            SequenceOp::Seed { account, sequence } => self.seeded(account, sequence),
            SequenceOp::Reserve { account } => self.after_reserve(account),
            SequenceOp::Release { account, sequence } => self.after_release(account, sequence),
            SequenceOp::Reconcile { account, observed } => self.reconciled(account, observed),
        }
    }

    /// Whether the call gives `account` a number.
    pub open spec fn issues(self, op: SequenceOp, account: Seq<char>) -> bool {
        op == (SequenceOp::Reserve { account }) && self.has_next(account)
    }

    /// Whether the call takes a number back from `account`.
    pub open spec fn takes_back(self, op: SequenceOp, account: Seq<char>) -> bool {
        &&& op matches SequenceOp::Release { account: from, sequence }
        &&& from == account
        &&& self.reserved.contains_key(account)
        &&& self.reserved[account] == sequence
    }

    /// The state after a history of calls.
    pub open spec fn run(self, ops: Seq<SequenceOp>) -> Self
        decreases ops.len(),
    {
        if ops.len() == 0 {
            self
        } else {
            self.run(ops.drop_last()).after(ops.last())
        }
    }

    /// The numbers that a history gives `account`, in order.
    pub open spec fn issued(self, ops: Seq<SequenceOp>, account: Seq<char>) -> Seq<int>
        decreases ops.len(),
    {
        if ops.len() == 0 {
            Seq::empty()
        } else {
            let before = self.run(ops.drop_last());
            let earlier = self.issued(ops.drop_last(), account);
            if before.issues(ops.last(), account) {
                earlier.push(before.reserved[account] + 1)
            } else {
                earlier
            }
        }
    }

    /// The numbers that a history has given `account` and not taken back.
    pub open spec fn held(self, ops: Seq<SequenceOp>, account: Seq<char>) -> Set<int>
        decreases ops.len(),
    {
        if ops.len() == 0 {
            Set::empty()
        } else {
            let before = self.run(ops.drop_last());
            let earlier = self.held(ops.drop_last(), account);
            if before.issues(ops.last(), account) {
                earlier.insert(before.reserved[account] + 1)
            } else if before.takes_back(ops.last(), account) {
                earlier.remove(before.reserved[account] as int)
            } else {
                earlier
            }
        }
    }

    /// Whether nothing in a history but its reservations touches the last
    /// reserved number of `account`.
    pub open spec fn only_reserves(self, ops: Seq<SequenceOp>, account: Seq<char>) -> bool
        decreases ops.len(),
    {
        ops.len() > 0 ==> {
            let before = self.run(ops.drop_last());
            &&& self.only_reserves(ops.drop_last(), account)
            &&& before.issues(ops.last(), account) || before.after(ops.last()).reserved.get(account)
                == before.reserved.get(account)
        }
    }

    /// Whether no call of a history lowers the last reserved number of
    /// `account`.
    pub open spec fn never_lowers(self, ops: Seq<SequenceOp>, account: Seq<char>) -> bool
        decreases ops.len(),
    {
        ops.len() > 0 ==> {
            let before = self.run(ops.drop_last());
            &&& self.never_lowers(ops.drop_last(), account)
            &&& before.reserved.contains_key(account) ==> before.after(ops.last()).reserved[account]
                >= before.reserved[account]
        }
    }

    /// Whether no seeding in a history lowers the last reserved number of
    /// `account`.
    pub open spec fn never_seeds_lower(self, ops: Seq<SequenceOp>, account: Seq<char>) -> bool
        decreases ops.len(),
    {
        ops.len() > 0 ==> {
            let before = self.run(ops.drop_last());
            &&& self.never_seeds_lower(ops.drop_last(), account)
            &&& ops.last() matches SequenceOp::Seed { account: seeded, sequence } ==> seeded
                == account && before.reserved.contains_key(account) ==> sequence
                >= before.reserved[account]
        }
    }
}

/// A manager that knows nothing is in order.
pub proof fn empty_state_is_well_formed()
    ensures
        SequenceState::empty().well_formed(),
{
}

/// Whatever is called, an account has both a baseline and a last reserved
/// number or neither, and its last reserved number never falls below what was
/// seen on the chain.
pub proof fn reservations_stay_above_baseline(state: SequenceState, ops: Seq<SequenceOp>)
    requires
        state.well_formed(),
    ensures
        state.run(ops).well_formed(),
    decreases ops.len(),
{
    if ops.len() > 0 {
        let before = state.run(ops.drop_last());
        reservations_stay_above_baseline(state, ops.drop_last());
        assert forall|account: Seq<char>| #[trigger] state.run(ops).keeps_both(account) by {
            assert(before.keeps_both(account));
        }
    }
}

/// Every number that an account is given is above what was seen on the chain,
/// and above what was last reserved.
pub proof fn next_reservation_is_beyond_the_chain(
    state: SequenceState,
    ops: Seq<SequenceOp>,
    account: Seq<char>,
)
    requires
        state.well_formed(),
        state.run(ops).has_next(account),
    ensures
        ({
            let before = state.run(ops);
            let after = state.run(ops.push(SequenceOp::Reserve { account }));
            &&& after.reserved[account] > before.baseline[account]
            &&& after.reserved[account] == before.reserved[account] + 1
        }),
{
    let longer = ops.push(SequenceOp::Reserve { account });
    assert(longer.drop_last() =~= ops);
    reservations_stay_above_baseline(state, ops);
    assert(state.run(ops).keeps_both(account));
}

/// The numbers that an account is given go up by exactly one, starting right
/// above what was last reserved, as long as nothing but reservations touches
/// its last reserved number.
pub proof fn reservations_follow_without_gaps(
    state: SequenceState,
    ops: Seq<SequenceOp>,
    account: Seq<char>,
)
    requires
        state.only_reserves(ops, account),
    ensures
        forall|i: int|
            0 <= i < state.issued(ops, account).len() ==> #[trigger] state.issued(ops, account)[i]
                == state.reserved[account] + 1 + i,
        state.run(ops).reserved.contains_key(account) == state.reserved.contains_key(account),
        state.reserved.contains_key(account) ==> state.run(ops).reserved[account]
            == state.reserved[account] + state.issued(ops, account).len(),
    decreases ops.len(),
{
    if ops.len() > 0 {
        reservations_follow_without_gaps(state, ops.drop_last(), account);
        let earlier = state.issued(ops.drop_last(), account);
        let all = state.issued(ops, account);
        assert forall|i: int| 0 <= i < all.len() implies #[trigger] all[i]
            == state.reserved[account] + 1 + i by {
            if i < earlier.len() {
                assert(all[i] == earlier[i]);
            }
        }
    }
}

/// Each number that an account is given is greater than all it was given
/// before, as long as no call lowers its last reserved number. So no two
/// reservations get the same number.
pub proof fn reservations_strictly_increase(
    state: SequenceState,
    ops: Seq<SequenceOp>,
    account: Seq<char>,
)
    requires
        state.never_lowers(ops, account),
    ensures
        forall|i: int, j: int|
            0 <= i < j < state.issued(ops, account).len() ==> #[trigger] state.issued(
                ops,
                account,
            )[i] < #[trigger] state.issued(ops, account)[j],
        forall|i: int|
            0 <= i < state.issued(ops, account).len() ==> #[trigger] state.issued(ops, account)[i]
                <= state.run(ops).reserved[account],
        state.issued(ops, account).len() > 0 ==> state.run(ops).reserved.contains_key(account),
    decreases ops.len(),
{
    if ops.len() > 0 {
        reservations_strictly_increase(state, ops.drop_last(), account);
        let earlier = state.issued(ops.drop_last(), account);
        let all = state.issued(ops, account);
        assert(forall|i: int| 0 <= i < earlier.len() ==> #[trigger] all[i] == earlier[i]);
    }
}

/// A number that an account has been given and has not given back is never
/// given to it again, unless the account is seeded anew below what was
/// already reserved: the next reservation gets a number that nobody holds.
pub proof fn held_numbers_are_never_issued_again(
    state: SequenceState,
    ops: Seq<SequenceOp>,
    account: Seq<char>,
)
    requires
        state.well_formed(),
        state.never_seeds_lower(ops, account),
    ensures
        forall|number: int| #[trigger]
            state.held(ops, account).contains(number) ==> state.run(ops).reserved.contains_key(
                account,
            ) && number <= state.run(ops).reserved[account],
        !state.held(ops, account).contains(state.run(ops).reserved[account] + 1),
    decreases ops.len(),
{
    if ops.len() > 0 {
        let before = state.run(ops.drop_last());
        held_numbers_are_never_issued_again(state, ops.drop_last(), account);
        reservations_stay_above_baseline(state, ops.drop_last());
        assert(before.keeps_both(account));
    }
}

/// Giving back a number right after it was reserved leaves everything as it
/// was before, so that the next reservation gets the same number again.
pub proof fn release_undoes_reserve(state: SequenceState, account: Seq<char>)
    requires
        state.well_formed(),
        state.has_next(account),
    ensures
        state.after_reserve(account).after_release(account, (state.reserved[account] + 1) as i64)
            == state,
{
    assert(state.keeps_both(account));
    assert(state.after_reserve(account).after_release(
        account,
        (state.reserved[account] + 1) as i64,
    ).reserved =~= state.reserved);
}

/// Calls about other accounts leave what is known of an account as it is.
pub proof fn accounts_are_independent(
    state: SequenceState,
    ops: Seq<SequenceOp>,
    account: Seq<char>,
)
    requires
        forall|i: int| 0 <= i < ops.len() ==> (#[trigger] ops[i]).account() != account,
    ensures
        state.run(ops).baseline.get(account) == state.baseline.get(account),
        state.run(ops).reserved.get(account) == state.reserved.get(account),
    decreases ops.len(),
{
    if ops.len() > 0 {
        let earlier = ops.drop_last();
        assert forall|i: int| 0 <= i < earlier.len() implies (#[trigger] earlier[i]).account()
            != account by {
            assert(earlier[i] == ops[i]);
        }
        accounts_are_independent(state, earlier, account);
        assert(ops[ops.len() - 1].account() != account);
    }
}

/// A reconciliation lists as stale exactly the numbers above the old baseline
/// that were reserved and that the chain has reached, in ascending order.
pub proof fn stale_numbers_are_those_used_up(
    state: SequenceState,
    account: Seq<char>,
    observed: i64,
    number: i64,
)
    requires
        state.baseline.contains_key(account),
        state.baseline[account] < observed,
    ensures
        state.reconciliation(account, observed) matches OutcomeView::BehindReality {
            stale_sequences,
            new_baseline,
        } && {
            &&& new_baseline == observed
            &&& stale_sequences.contains(number) <==> state.baseline[account] < number
                <= state.reserved[account] && number <= observed
            &&& forall|i: int, j: int|
                0 <= i < j < stale_sequences.len() ==> #[trigger] stale_sequences[i]
                    < #[trigger] stale_sequences[j]
        },
{
    let from = state.baseline[account];
    let outcome = state.reconciliation(account, observed);
    let stale = outcome->stale_sequences;
    if from < number <= state.reserved[account] && number <= observed {
        assert(stale[number - from - 1] == number);
    }
}

/// A reconciliation lowers neither number of an account. Where the chain is
/// not ahead of a known baseline, it changes nothing; where it is, or where
/// the account was not known, the next reservation is beyond what was seen on
/// the chain.
pub proof fn reconciliation_keeps_valid_reservations(
    state: SequenceState,
    account: Seq<char>,
    observed: i64,
)
    requires
        state.well_formed(),
    ensures
        ({
            let after = state.reconciled(account, observed);
            if state.baseline.contains_key(account) {
                &&& after.baseline[account] >= state.baseline[account]
                &&& after.reserved[account] >= state.reserved[account]
                &&& observed <= state.baseline[account] ==> after == state
                &&& observed > state.baseline[account] ==> after.baseline[account] == observed
                    && after.reserved[account] >= observed
                &&& state.reserved[account] >= observed ==> after.reserved == state.reserved
            } else {
                after.baseline[account] == observed && after.reserved[account] == observed
            }
        }),
{
    assert(state.keeps_both(account));
}

/// Seeding an account makes both of its numbers the one seen on the chain, and
/// leaves all other accounts as they are.
pub proof fn seeding_sets_both_numbers(state: SequenceState, account: Seq<char>, sequence: i64)
    ensures
        state.seeded(account, sequence).baseline.get(account) == Some(sequence),
        state.seeded(account, sequence).reserved.get(account) == Some(sequence),
        forall|other: Seq<char>|
            other != account ==> #[trigger] state.seeded(account, sequence).baseline.get(other)
                == state.baseline.get(other),
        forall|other: Seq<char>|
            other != account ==> #[trigger] state.seeded(account, sequence).reserved.get(other)
                == state.reserved.get(other),
{
}

/// There is a number left for every account that is known and has not been
/// given the largest number there is. Reserving gives it the number right
/// above the last one. For any other account nothing changes.
pub proof fn reserving_gives_the_number_above_the_last(state: SequenceState, account: Seq<char>)
    ensures
        state.after_reserve(account).baseline == state.baseline,
        state.reserved.contains_key(account) && state.reserved[account] < i64::MAX ==> {
            &&& state.has_next(account)
            &&& state.after_reserve(account).reserved.dom() == state.reserved.dom()
            &&& state.after_reserve(account).reserved[account] == state.reserved[account] + 1
        },
        !(state.reserved.contains_key(account) && state.reserved[account] < i64::MAX) ==> {
            &&& !state.has_next(account)
            &&& state.after_reserve(account).reserved == state.reserved
        },
        forall|other: Seq<char>|
            other != account ==> #[trigger] state.after_reserve(account).reserved.get(other)
                == state.reserved.get(other),
{
    if state.has_next(account) {
        assert(state.after_reserve(account).reserved.dom() =~= state.reserved.dom());
    }
}

/// Releasing the last reserved number of an account lowers it by one, but not
/// below the baseline. Releasing any other number changes nothing.
pub proof fn releasing_takes_back_the_last_number_only(
    state: SequenceState,
    account: Seq<char>,
    sequence: i64,
)
    requires
        state.well_formed(),
    ensures
        state.after_release(account, sequence).baseline == state.baseline,
        state.reserved.get(account) != Some(sequence) ==> state.after_release(
            account,
            sequence,
        ).reserved == state.reserved,
        state.reserved.get(account) == Some(sequence) ==> {
            let after = state.after_release(account, sequence).reserved;
            &&& after.dom() == state.reserved.dom()
            &&& after[account] == sequence - 1 || after[account] == state.baseline[account]
            &&& after[account] >= sequence - 1
            &&& after[account] >= state.baseline[account]
            &&& after[account] <= sequence
        },
        forall|other: Seq<char>|
            other != account ==> #[trigger] state.after_release(account, sequence).reserved.get(
                other,
            ) == state.reserved.get(other),
{
    assert(state.keeps_both(account));
    if state.reserved.get(account) == Some(sequence) {
        assert(state.after_release(account, sequence).reserved.dom() =~= state.reserved.dom());
    }
}

/// After a reconciliation of a known account with a chain that is ahead of
/// its baseline, the baseline is the observed number, and the last reserved
/// number is the larger of the observed one and what it was before. So the
/// next reservation is right above the larger of the two.
pub proof fn reservations_go_on_right_above_the_chain(
    state: SequenceState,
    account: Seq<char>,
    observed: i64,
)
    requires
        state.baseline.contains_key(account),
        state.reserved.contains_key(account),
        observed > state.baseline[account],
    ensures
        ({
            let after = state.reconciled(account, observed);
            let next = after.after_reserve(account);
            &&& after.baseline == state.baseline.insert(account, observed)
            &&& after.reserved.dom() == state.reserved.dom()
            &&& after.reserved[account] == observed || after.reserved[account]
                == state.reserved[account]
            &&& after.reserved[account] >= observed
            &&& after.reserved[account] >= state.reserved[account]
            &&& observed >= state.reserved[account] && observed < i64::MAX
                ==> next.reserved[account] == observed + 1
            &&& observed < state.reserved[account] && state.reserved[account] < i64::MAX
                ==> next.reserved[account] == state.reserved[account] + 1
        }),
{
    assert(state.reconciled(account, observed).reserved.dom() =~= state.reserved.dom());
}

/// A reconciliation tells on which side of the baseline the chain was seen,
/// with the numbers themselves. The stale numbers are the ones right above the
/// old baseline, one after the other, up to what was reserved or observed,
/// whichever is lower.
pub proof fn reconciliation_tells_where_the_chain_is(
    state: SequenceState,
    account: Seq<char>,
    observed: i64,
)
    requires
        state.keeps_both(account),
    ensures
        !state.baseline.contains_key(account) ==> state.reconciliation(account, observed)
            is NoDrift,
        state.baseline.contains_key(account) ==> match state.reconciliation(account, observed) {
            OutcomeView::NoDrift => observed == state.baseline[account],
            OutcomeView::AheadOfReality { observed: seen, baseline } => {
                &&& observed < state.baseline[account]
                &&& seen == observed
                &&& baseline == state.baseline[account]
            },
            OutcomeView::BehindReality { stale_sequences, new_baseline } => {
                &&& observed > state.baseline[account]
                &&& new_baseline == observed
                &&& forall|i: int|
                    0 <= i < stale_sequences.len() ==> #[trigger] stale_sequences[i]
                        == state.baseline[account] + 1 + i
                &&& stale_sequences.len() + state.baseline[account] == observed
                    || stale_sequences.len() + state.baseline[account] == state.reserved[account]
                &&& stale_sequences.len() + state.baseline[account] <= observed
                &&& stale_sequences.len() + state.baseline[account] <= state.reserved[account]
            },
        },
{
}

} // verus!
