//! What holds of an outbound queue over a whole history of calls: that no
//! entry is lost or handed out twice, in which order entries go, and how many
//! emergency payments its guard lets through.
use vstd::prelude::*;

use crate::errors::ErrorView;
use crate::queue::priority;
use crate::queue::priority::{EmergencyGuardConfig, QueueState, QueuedTx, TxPriority};

verus! {

/// A call of a queue that may change it.
pub enum QueueOp {
    Push { entry: QueuedTx },
    Restore { entry: QueuedTx },
    Pop,
}

impl QueueState {
    /// The queue that the call leaves behind.
    pub open spec fn after(self, op: QueueOp) -> Self {
        match op {
            QueueOp::Push { entry } => self.after_push(entry),
            QueueOp::Restore { entry } => self.after_restore(entry),
            QueueOp::Pop => self.after_pop(),
        }
    }

    /// The queue after a history of calls.
    pub open spec fn run(self, ops: Seq<QueueOp>) -> Self
        decreases ops.len(),
    {
        if ops.len() == 0 {
            self
        } else {
            self.run(ops.drop_last()).after(ops.last())
        }
    }

    /// The entry that the call puts into the queue, if it does.
    pub open spec fn accepts(self, op: QueueOp) -> Option<QueuedTx> {
        match op {
            QueueOp::Push { entry } => if self.verdict(entry) is Ok {
                Some(entry)
            } else {
                None
            },
            QueueOp::Restore { entry } => Some(entry),
            QueueOp::Pop => None,
        }
    }

    /// The entries that a history puts into the queue, in order.
    pub open spec fn accepted(self, ops: Seq<QueueOp>) -> Seq<QueuedTx>
        decreases ops.len(),
    {
        if ops.len() == 0 {
            Seq::empty()
        } else {
            let earlier = self.accepted(ops.drop_last());
            match self.run(ops.drop_last()).accepts(ops.last()) {
                Some(entry) => earlier.push(entry),
                None => earlier,
            }
        }
    }

    /// The entries that a history hands out, in order.
    pub open spec fn handed_out(self, ops: Seq<QueueOp>) -> Seq<QueuedTx>
        decreases ops.len(),
    {
        if ops.len() == 0 {
            Seq::empty()
        } else {
            let before = self.run(ops.drop_last());
            let earlier = self.handed_out(ops.drop_last());
            if ops.last() is Pop && before.entries.len() > 0 {
                earlier.push(before.entries[0])
            } else {
                earlier
            }
        }
    }
}

/// The stamps of the emergency payments among `entries`, in order.
pub open spec fn emergency_times(entries: Seq<QueuedTx>) -> Seq<u64>
    decreases entries.len(),
{
    if entries.len() == 0 {
        Seq::empty()
    } else {
        let earlier = emergency_times(entries.drop_last());
        if entries.last().priority == TxPriority::Emergency {
            earlier.push(entries.last().enqueued_at)
        } else {
            earlier
        }
    }
}

/// Whether no emergency push of a history is stamped later than `now`.
pub open spec fn asked_by(ops: Seq<QueueOp>, now: u64) -> bool {
    forall|i: int|
        0 <= i < ops.len() ==> ((#[trigger] ops[i]) matches QueueOp::Push { entry }
            ==> entry.priority == TxPriority::Emergency ==> entry.enqueued_at <= now)
}

/// Whether the emergency pushes of a history are stamped in ascending order.
pub open spec fn asked_in_order(ops: Seq<QueueOp>) -> bool
    decreases ops.len(),
{
    ops.len() > 0 ==> {
        &&& asked_in_order(ops.drop_last())
        &&& ops.last() matches QueueOp::Push { entry } ==> entry.priority == TxPriority::Emergency
            ==> asked_by(ops.drop_last(), entry.enqueued_at)
    }
}

/// How many of `times` fall into the window of that many nanoseconds that
/// ends at `end`.
pub open spec fn count_in_window(times: Seq<u64>, end: u64, window_nanos: nat) -> nat
    decreases times.len(),
{
    if times.len() == 0 {
        0
    } else {
        count_in_window(times.drop_last(), end, window_nanos) + if times.last() <= end && (end
            - times.last()) * 1_000_000_000 < window_nanos {
            1nat
        } else {
            0nat
        }
    }
}

/// Entries stay in order, whatever is called.
pub proof fn order_is_kept(state: QueueState, ops: Seq<QueueOp>)
    requires
        state.in_order(),
    ensures
        state.run(ops).in_order(),
    decreases ops.len(),
{
    if ops.len() > 0 {
        let before = state.run(ops.drop_last());
        order_is_kept(state, ops.drop_last());
        match ops.last() {
            QueueOp::Push { entry } => priority::queueing_keeps_order(before.entries, entry),
            QueueOp::Restore { entry } => priority::queueing_keeps_order(before.entries, entry),
            QueueOp::Pop => {
                if before.entries.len() > 0 {
                    priority::dispatch_keeps_order(before.entries);
                }
            },
        }
    }
}

/// The entry that goes next is the most urgent one and, among the most
/// urgent, one with the earliest stamp.
pub proof fn most_urgent_goes_first(state: QueueState, i: int)
    requires
        state.in_order(),
        0 <= i < state.entries.len(),
    ensures
        priority::rank(state.entries[0].priority) >= priority::rank(state.entries[i].priority),
        state.entries[0].priority == state.entries[i].priority ==> state.entries[0].enqueued_at
            <= state.entries[i].enqueued_at,
{
    if i > 0 {
        assert(state.entries[0].precedes(state.entries[i]));
    }
}

/// An entry that is queued goes behind every waiting entry of the same
/// priority and stamp: among equals, who came first goes first.
pub proof fn equals_keep_their_turn(state: QueueState, entry: QueuedTx, i: int)
    requires
        state.in_order(),
        0 <= i < state.entries.len(),
        state.entries[i].priority == entry.priority,
        state.entries[i].enqueued_at == entry.enqueued_at,
    ensures
        i < priority::place(state.entries, entry),
        state.with(entry).entries[i] == state.entries[i],
        state.with(entry).entries[priority::place(state.entries, entry)] == entry,
{
    priority::place_parts_the_entries(state.entries, entry);
}

/// Nothing is lost and nothing is handed out twice: what was there at first
/// and what was accepted since is what was handed out and what still waits.
pub proof fn entries_are_conserved(state: QueueState, ops: Seq<QueueOp>)
    ensures
        state.entries.to_multiset().add(state.accepted(ops).to_multiset()) == state.handed_out(
            ops,
        ).to_multiset().add(state.run(ops).entries.to_multiset()),
    decreases ops.len(),
{
    broadcast use vstd::seq_lib::group_to_multiset_ensures;

    let first = state.entries.to_multiset();
    if ops.len() > 0 {
        let before = state.run(ops.drop_last());
        let after = state.run(ops);
        let accepted = state.accepted(ops.drop_last());
        let out = state.handed_out(ops.drop_last());
        entries_are_conserved(state, ops.drop_last());
        match before.accepts(ops.last()) {
            Some(entry) => {
                let at = priority::place(before.entries, entry);
                priority::place_is_within(before.entries, entry);
                assert(after.entries == before.entries.insert(at, entry));
                vstd::seq_lib::to_multiset_insert(before.entries, at, entry);
                let total = first.add(accepted.to_multiset());
                assert(first.add(accepted.to_multiset().insert(entry)) =~= total.insert(entry));
                assert(out.to_multiset().add(before.entries.to_multiset().insert(entry))
                    =~= total.insert(entry));
            },
            None => {
                if ops.last() is Pop && before.entries.len() > 0 {
                    let entry = before.entries[0];
                    assert(after.entries =~= before.entries.remove(0));
                    assert(before.entries.to_multiset().count(entry) > 0);
                    assert(out.to_multiset().insert(entry).add(
                        before.entries.to_multiset().remove(entry),
                    ) =~= out.to_multiset().add(before.entries.to_multiset()));
                }
            },
        }
    } else {
        assert(first.add(Seq::<QueuedTx>::empty().to_multiset()) =~= Seq::<
            QueuedTx,
        >::empty().to_multiset().add(first));
    }
}

/// Only an emergency payment can be refused, and only by a guard.
pub proof fn other_payments_are_never_refused(state: QueueState, entry: QueuedTx)
    requires
        entry.priority != TxPriority::Emergency || state.guard is None,
    ensures
        state.verdict(entry) is Ok,
        state.after_push(entry) == state.with(entry),
{
}

/// A refused payment is not queued, and not put on the guard's record.
pub proof fn refused_payment_leaves_no_trace(state: QueueState, entry: QueuedTx)
    requires
        state.verdict(entry) is Err,
    ensures
        state.after_push(entry).entries == state.entries,
        state.after_push(entry).guard == Some(state.guard->0.checked(entry.enqueued_at)),
{
}

/// All times that a guard has ever had on its record: those at first, and
/// those of the emergency payments accepted since.
pub open spec fn record(state: QueueState, ops: Seq<QueueOp>) -> Seq<u64> {
    state.guard->0.history + emergency_times(state.accepted(ops))
}

/// A call adds to the record the stamp of the emergency payment that it
/// accepts, if it accepts one.
proof fn record_grows(state: QueueState, ops: Seq<QueueOp>)
    requires
        ops.len() > 0,
    ensures
        record(state, ops) == match state.run(ops.drop_last()).accepts(ops.last()) {
            Some(entry) => if entry.priority == TxPriority::Emergency {
                record(state, ops.drop_last()).push(entry.enqueued_at)
            } else {
                record(state, ops.drop_last())
            },
            None => record(state, ops.drop_last()),
        },
{
    let earlier = state.accepted(ops.drop_last());
    if let Some(entry) = state.run(ops.drop_last()).accepts(ops.last()) {
        assert(earlier.push(entry).drop_last() =~= earlier);
        if entry.priority == TxPriority::Emergency {
            assert(record(state, ops) =~= record(state, ops.drop_last()).push(entry.enqueued_at));
        }
    }
}

/// A queue keeps its guard, with its limit, whatever is called.
pub proof fn limit_is_kept(state: QueueState, ops: Seq<QueueOp>)
    ensures
        state.run(ops).guard is Some <==> state.guard is Some,
        state.guard is Some ==> {
            &&& state.run(ops).guard->0.max_count == state.guard->0.max_count
            &&& state.run(ops).guard->0.window_secs == state.guard->0.window_secs
            &&& state.run(ops).guard->0.window_fraction == state.guard->0.window_fraction
        },
    decreases ops.len(),
{
    if ops.len() > 0 {
        limit_is_kept(state, ops.drop_last());
    }
}

/// Pruning earlier makes no difference to pruning later.
proof fn pruned_twice(times: Seq<u64>, earlier: u64, now: u64, window_nanos: nat)
    requires
        earlier <= now,
    ensures
        priority::pruned(priority::pruned(times, earlier, window_nanos), now, window_nanos)
            == priority::pruned(times, now, window_nanos),
    decreases times.len(),
{
    if times.len() > 0 {
        let shorter = times.drop_last();
        let at = times.last();
        assert(shorter.push(at) =~= times);
        pruned_twice(shorter, earlier, now, window_nanos);
        priority::pruned_with_one_more(shorter, at, earlier, window_nanos);
        priority::pruned_with_one_more(shorter, at, now, window_nanos);
        priority::pruned_with_one_more(
            priority::pruned(shorter, earlier, window_nanos),
            at,
            now,
            window_nanos,
        );
    } else {
        reveal(Seq::filter);
    }
}

/// What the guard still has on its record is, as of any time at or after its
/// last question, as good as all that it ever had.
proof fn pruning_forgets_nothing(state: QueueState, ops: Seq<QueueOp>, now: u64)
    requires
        state.guard is Some,
        asked_by(ops, now),
    ensures
        priority::pruned(record(state, ops), now, state.guard->0.window_nanos())
            == priority::pruned(
            state.run(ops).guard->0.history,
            now,
            state.guard->0.window_nanos(),
        ),
    decreases ops.len(),
{
    let window_nanos = state.guard->0.window_nanos();
    limit_is_kept(state, ops);
    if ops.len() > 0 {
        let earlier = ops.drop_last();
        let held = state.run(earlier).guard->0.history;
        let all = record(state, earlier);
        assert(forall|i: int| 0 <= i < earlier.len() ==> #[trigger] earlier[i] == ops[i]);
        assert(ops[ops.len() - 1] == ops.last());
        pruning_forgets_nothing(state, earlier, now);
        limit_is_kept(state, earlier);
        record_grows(state, ops);
        match ops.last() {
            QueueOp::Push { entry } => {
                if entry.priority == TxPriority::Emergency {
                    let at = entry.enqueued_at;
                    let checked = priority::pruned(held, at, window_nanos);
                    pruned_twice(held, at, now, window_nanos);
                    priority::pruned_with_one_more(all, at, now, window_nanos);
                    priority::pruned_with_one_more(checked, at, now, window_nanos);
                }
            },
            QueueOp::Restore { entry } => {
                priority::pruned_with_one_more(all, entry.enqueued_at, now, window_nanos);
                priority::pruned_with_one_more(held, entry.enqueued_at, now, window_nanos);
            },
            QueueOp::Pop => {},
        }
    } else {
        assert(record(state, ops) =~= state.guard->0.history);
    }
}

/// Whenever the guard lets an emergency payment through, and had not been
/// asked before as of a later time, the payments on record that are younger
/// than the window, this one and all restored ones included, are no more than
/// the limit.
pub proof fn admitted_payment_is_within_limit(
    state: QueueState,
    ops: Seq<QueueOp>,
    entry: QueuedTx,
)
    requires
        state.guard is Some,
        entry.priority == TxPriority::Emergency,
        asked_by(ops, entry.enqueued_at),
        state.run(ops).verdict(entry) is Ok,
    ensures
        priority::pruned(
            record(state, ops.push(QueueOp::Push { entry })),
            entry.enqueued_at,
            state.guard->0.window_nanos(),
        ).len() <= state.guard->0.max_count,
{
    let now = entry.enqueued_at;
    let longer = ops.push(QueueOp::Push { entry });
    assert(longer.drop_last() =~= ops);
    limit_is_kept(state, ops);
    record_grows(state, longer);
    pruning_forgets_nothing(state, ops, now);
    priority::pruned_with_one_more(
        record(state, ops),
        now,
        now,
        state.guard->0.window_nanos(),
    );
}

/// The guard refuses an emergency payment only where it has to: the payments
/// on record that are younger than the window are as many as the limit, or
/// more, and the refusal counts them. As before, the guard must not have been
/// asked as of a later time.
pub proof fn refused_payment_is_over_limit(state: QueueState, ops: Seq<QueueOp>, entry: QueuedTx)
    requires
        state.guard is Some,
        asked_by(ops, entry.enqueued_at),
        state.run(ops).verdict(entry) is Err,
    ensures
        ({
            let live = priority::pruned(
                record(state, ops),
                entry.enqueued_at,
                state.guard->0.window_nanos(),
            );
            &&& live.len() >= state.guard->0.max_count
            &&& state.run(ops).verdict(entry)->Err_0 == (ErrorView::EmergencyQueueLimitExceeded {
                current: live.len() as usize,
                max: state.guard->0.max_count,
                window_secs: state.guard->0.window_secs,
            })
        }),
{
    limit_is_kept(state, ops);
    pruning_forgets_nothing(state, ops, entry.enqueued_at);
}

/// Where no time is later than `latest`, a window that ends at or after it
/// holds no more of them than were live at `latest`.
proof fn window_holds_only_the_live(times: Seq<u64>, latest: u64, end: u64, window_nanos: nat)
    requires
        latest <= end,
        forall|i: int| 0 <= i < times.len() ==> #[trigger] times[i] <= latest,
    ensures
        count_in_window(times, end, window_nanos) <= priority::pruned(
            times,
            latest,
            window_nanos,
        ).len(),
    decreases times.len(),
{
    if times.len() > 0 {
        let shorter = times.drop_last();
        assert(forall|i: int| 0 <= i < shorter.len() ==> #[trigger] shorter[i] == times[i]);
        assert(times[times.len() - 1] == times.last());
        assert(shorter.push(times.last()) =~= times);
        window_holds_only_the_live(shorter, latest, end, window_nanos);
        priority::pruned_with_one_more(shorter, times.last(), latest, window_nanos);
    }
}

/// Whether every time on a guard's record is at or before the stamp of every
/// emergency push of a history.
pub open spec fn recorded_before(times: Seq<u64>, ops: Seq<QueueOp>) -> bool {
    forall|i: int, j: int|
        0 <= i < times.len() && 0 <= j < ops.len() ==> ((#[trigger] ops[j]) matches QueueOp::Push {
            entry,
        } ==> entry.priority == TxPriority::Emergency ==> #[trigger] times[i]
            <= entry.enqueued_at)
}

/// Whether a history restores no emergency payment.
pub open spec fn restores_no_emergency(ops: Seq<QueueOp>) -> bool {
    forall|i: int|
        0 <= i < ops.len() ==> ((#[trigger] ops[i]) matches QueueOp::Restore { entry }
            ==> entry.priority != TxPriority::Emergency)
}

/// Nothing comes on record that is later than the last question.
proof fn record_is_bounded(state: QueueState, ops: Seq<QueueOp>, now: u64)
    requires
        asked_by(ops, now),
        restores_no_emergency(ops),
        forall|i: int|
            0 <= i < state.guard->0.history.len() ==> #[trigger] state.guard->0.history[i] <= now,
    ensures
        forall|i: int|
            0 <= i < record(state, ops).len() ==> #[trigger] record(state, ops)[i] <= now,
    decreases ops.len(),
{
    if ops.len() > 0 {
        let earlier = ops.drop_last();
        assert(forall|i: int| 0 <= i < earlier.len() ==> #[trigger] earlier[i] == ops[i]);
        assert(ops[ops.len() - 1] == ops.last());
        record_is_bounded(state, earlier, now);
        record_grows(state, ops);
    } else {
        assert(record(state, ops) =~= state.guard->0.history);
    }
}

/// The stamps of the emergency payments that a history pushes and that are
/// admitted, in order.
pub open spec fn admitted_times(state: QueueState, ops: Seq<QueueOp>) -> Seq<u64>
    decreases ops.len(),
{
    if ops.len() == 0 {
        Seq::empty()
    } else {
        let earlier = admitted_times(state, ops.drop_last());
        match ops.last() {
            QueueOp::Push { entry } => if entry.priority == TxPriority::Emergency && state.run(
                ops.drop_last(),
            ).verdict(entry) is Ok {
                earlier.push(entry.enqueued_at)
            } else {
                earlier
            },
            _ => earlier,
        }
    }
}

/// Admitted payments are on record, so no more of them are live than of the
/// record.
proof fn admitted_are_on_record(state: QueueState, ops: Seq<QueueOp>, now: u64, window_nanos: nat)
    ensures
        priority::pruned(admitted_times(state, ops), now, window_nanos).len()
            <= priority::pruned(record(state, ops), now, window_nanos).len(),
    decreases ops.len(),
{
    if ops.len() > 0 {
        let earlier = ops.drop_last();
        admitted_are_on_record(state, earlier, now, window_nanos);
        record_grows(state, ops);
        let admitted = admitted_times(state, earlier);
        let all = record(state, earlier);
        if let Some(entry) = state.run(earlier).accepts(ops.last()) {
            let at = entry.enqueued_at;
            priority::pruned_with_one_more(admitted, at, now, window_nanos);
            priority::pruned_with_one_more(all, at, now, window_nanos);
        }
    } else {
        reveal(Seq::filter);
    }
}

/// No payment is admitted with a stamp later than the last question.
proof fn admitted_are_bounded(state: QueueState, ops: Seq<QueueOp>, now: u64)
    requires
        asked_by(ops, now),
    ensures
        forall|i: int|
            0 <= i < admitted_times(state, ops).len() ==> #[trigger] admitted_times(state, ops)[i]
                <= now,
    decreases ops.len(),
{
    if ops.len() > 0 {
        let earlier = ops.drop_last();
        assert(forall|i: int| 0 <= i < earlier.len() ==> #[trigger] earlier[i] == ops[i]);
        assert(ops[ops.len() - 1] == ops.last());
        admitted_are_bounded(state, earlier, now);
        let before = admitted_times(state, earlier);
        let all = admitted_times(state, ops);
        assert(forall|i: int| 0 <= i < before.len() ==> #[trigger] all[i] == before[i]);
    }
}

/// At most as many emergency payments as the limit are admitted within any
/// window of the guard's length, wherever it ends and whatever is restored in
/// between, as long as the emergency pushes are stamped in ascending order.
pub proof fn no_window_admits_more_than_the_limit(
    state: QueueState,
    ops: Seq<QueueOp>,
    end: u64,
)
    requires
        state.guard is Some,
        asked_in_order(ops),
    ensures
        count_in_window(admitted_times(state, ops), end, state.guard->0.window_nanos())
            <= state.guard->0.max_count,
    decreases ops.len(),
{
    let window_nanos = state.guard->0.window_nanos();
    if ops.len() > 0 {
        let earlier = ops.drop_last();
        let admitted = admitted_times(state, earlier);
        no_window_admits_more_than_the_limit(state, earlier, end);
        if let QueueOp::Push { entry } = ops.last() {
            if entry.priority == TxPriority::Emergency && state.run(earlier).verdict(entry) is Ok {
                let at = entry.enqueued_at;
                assert(earlier.push(ops.last()) =~= ops);
                assert(admitted.push(at).drop_last() =~= admitted);
                admitted_payment_is_within_limit(state, earlier, entry);
                admitted_are_on_record(state, ops, at, window_nanos);
                admitted_are_bounded(state, earlier, at);
                if end >= at {
                    window_holds_only_the_live(admitted_times(state, ops), at, end, window_nanos);
                }
            }
        }
    }
}

/// What was on record at first, as after a restart, counts against the limit
/// with the payments admitted since: no window of the guard's length holds
/// more of both together, as long as the record keeps the limit itself, is no
/// later than the pushes, and the pushes are stamped in ascending order.
pub proof fn earlier_payments_count_against_the_limit(state: QueueState, ops: Seq<QueueOp>, end: u64)
    requires
        state.guard is Some,
        asked_in_order(ops),
        restores_no_emergency(ops),
        recorded_before(state.guard->0.history, ops),
        forall|e: u64| #[trigger]
            count_in_window(state.guard->0.history, e, state.guard->0.window_nanos())
                <= state.guard->0.max_count,
    ensures
        count_in_window(record(state, ops), end, state.guard->0.window_nanos())
            <= state.guard->0.max_count,
    decreases ops.len(),
{
    let window_nanos = state.guard->0.window_nanos();
    if ops.len() > 0 {
        let earlier = ops.drop_last();
        let all = record(state, earlier);
        assert(forall|i: int| 0 <= i < earlier.len() ==> #[trigger] earlier[i] == ops[i]);
        assert(ops[ops.len() - 1] == ops.last());
        earlier_payments_count_against_the_limit(state, earlier, end);
        record_grows(state, ops);
        if let Some(entry) = state.run(earlier).accepts(ops.last()) {
            if entry.priority == TxPriority::Emergency {
                let at = entry.enqueued_at;
                assert(ops.last() == (QueueOp::Push { entry }));
                assert(earlier.push(ops.last()) =~= ops);
                assert(all.push(at).drop_last() =~= all);
                admitted_payment_is_within_limit(state, earlier, entry);
                record_is_bounded(state, earlier, at);
                if end >= at {
                    window_holds_only_the_live(record(state, ops), at, end, window_nanos);
                }
            }
        }
    } else {
        assert(record(state, ops) =~= state.guard->0.history);
    }
}

/// The calls that take `entries` back, in order.
pub open spec fn replay(entries: Seq<QueuedTx>) -> Seq<QueueOp> {
    Seq::new(entries.len(), |i: int| QueueOp::Restore { entry: entries[i] })
}

/// Taking entries back puts exactly the emergency payments among them on the
/// guard's record.
proof fn replay_rebuilds_the_record(state: QueueState, entries: Seq<QueuedTx>)
    requires
        state.guard is Some,
    ensures
        state.run(replay(entries)).guard->0.history == state.guard->0.history + emergency_times(
            entries,
        ),
    decreases entries.len(),
{
    limit_is_kept(state, replay(entries));
    if entries.len() > 0 {
        let earlier = entries.drop_last();
        assert(replay(entries).drop_last() =~= replay(earlier));
        limit_is_kept(state, replay(earlier));
        replay_rebuilds_the_record(state, earlier);
        assert(state.run(replay(entries)).guard->0.history =~= state.guard->0.history
            + emergency_times(entries));
    } else {
        assert(state.run(replay(entries)).guard->0.history =~= state.guard->0.history
            + emergency_times(entries));
    }
}

/// A restart does not reset the guard. A fresh queue with the same limit that
/// takes back all that was accepted answers every push as the queue before
/// the restart would have, and is left with the same record by it, unless an
/// emergency push is stamped before one that was answered already.
pub proof fn restart_does_not_reset_the_guard(
    fresh: QueueState,
    ops: Seq<QueueOp>,
    entry: QueuedTx,
)
    requires
        fresh.guard is Some,
        fresh.guard->0.history.len() == 0,
        entry.priority == TxPriority::Emergency ==> asked_by(ops, entry.enqueued_at),
    ensures
        fresh.run(replay(fresh.accepted(ops))).verdict(entry) == fresh.run(ops).verdict(entry),
        entry.priority == TxPriority::Emergency ==> fresh.run(
            replay(fresh.accepted(ops)),
        ).after_push(entry).guard == fresh.run(ops).after_push(entry).guard,
{
    let log = fresh.accepted(ops);
    limit_is_kept(fresh, ops);
    limit_is_kept(fresh, replay(log));
    replay_rebuilds_the_record(fresh, log);
    if entry.priority == TxPriority::Emergency {
        pruning_forgets_nothing(fresh, ops, entry.enqueued_at);
    }
}

/// Of two waiting entries, the one that stands first is at least as urgent
/// and, where both are equally urgent, stamped no later.
pub proof fn urgent_entries_stand_first(state: QueueState, i: int, j: int)
    requires
        state.in_order(),
        0 <= i < j < state.entries.len(),
    ensures
        state.entries[j].priority is Emergency ==> state.entries[i].priority is Emergency,
        state.entries[j].priority is Normal ==> !(state.entries[i].priority is Low),
        state.entries[i].priority == state.entries[j].priority ==> state.entries[i].enqueued_at
            <= state.entries[j].enqueued_at,
{
    assert(state.entries[i].precedes(state.entries[j]));
}

/// Queueing an entry puts it between two waiting entries, or at an end, and
/// moves no other. What stands before it is more urgent, or as urgent and
/// stamped no later; what stands behind it is less urgent, or as urgent and
/// stamped later.
pub proof fn queued_entry_takes_its_turn(state: QueueState, entry: QueuedTx) -> (at: int)
    requires
        state.in_order(),
    ensures
        state.with(entry).guard == state.guard,
        0 <= at <= state.entries.len(),
        state.with(entry).entries == state.entries.insert(at, entry),
        forall|i: int|
            #![trigger state.entries[i]]
            0 <= i < at ==> {
                let other = state.entries[i];
                &&& entry.priority is Emergency ==> other.priority is Emergency
                &&& entry.priority is Normal ==> !(other.priority is Low)
                &&& other.priority == entry.priority ==> other.enqueued_at <= entry.enqueued_at
            },
        forall|i: int|
            #![trigger state.entries[i]]
            at <= i < state.entries.len() ==> {
                let other = state.entries[i];
                &&& entry.priority is Low ==> other.priority is Low
                &&& entry.priority is Normal ==> !(other.priority is Emergency)
                &&& other.priority == entry.priority ==> other.enqueued_at > entry.enqueued_at
            },
{
    priority::place_parts_the_entries(state.entries, entry);
    let at = priority::place(state.entries, entry);
    assert forall|i: int| 0 <= i < at implies #[trigger] state.entries[i].precedes(entry) by {
        let other = state.entries[i];
        assert(other.precedes(entry));
    }
    assert forall|i: int| at <= i < state.entries.len() implies !(
    #[trigger] state.entries[i].precedes(entry)) by {
        let other = state.entries[i];
        assert(!other.precedes(entry));
    }
    at
}

/// A push is decided by how many payments on the guard's record are younger
/// than its window, in seconds and nanoseconds as the guard has them. Where
/// they are fewer than the limit, or the guard has no say, the entry is
/// queued, and an emergency payment goes on record behind the young ones.
/// Otherwise the answer counts them, and nothing is queued.
pub proof fn push_is_decided_by_the_young_on_record(state: QueueState, entry: QueuedTx)
    ensures
        !(entry.priority is Emergency) || state.guard is None ==> {
            &&& state.verdict(entry) is Ok
            &&& state.after_push(entry).guard == state.guard
            &&& state.after_push(entry).entries == state.with(entry).entries
        },
        entry.priority is Emergency && state.guard is Some ==> {
            let guard = state.guard->0;
            let now = entry.enqueued_at;
            let young = guard.history.filter(
                |t: u64|
                    (if now > t {
                        now - t
                    } else {
                        0
                    }) * 1_000_000_000 < guard.window_secs * 1_000_000_000 + guard.window_fraction,
            );
            let after = state.after_push(entry);
            &&& after.guard is Some
            &&& after.guard->0.max_count == guard.max_count
            &&& after.guard->0.window_secs == guard.window_secs
            &&& after.guard->0.window_fraction == guard.window_fraction
            &&& young.len() < guard.max_count ==> {
                &&& state.verdict(entry) is Ok
                &&& after.entries == state.with(entry).entries
                &&& after.guard->0.history == young.push(now)
            }
            &&& young.len() >= guard.max_count ==> {
                &&& state.verdict(entry) == Err::<(), ErrorView>(
                    ErrorView::EmergencyQueueLimitExceeded {
                        current: young.len() as usize,
                        max: guard.max_count,
                        window_secs: guard.window_secs,
                    },
                )
                &&& after.entries == state.entries
                &&& after.guard->0.history == young
            }
        },
{
    if entry.priority is Emergency && state.guard is Some {
        let guard = state.guard->0;
        let now = entry.enqueued_at;
        let spelled = |t: u64|
            (if now > t {
                now - t
            } else {
                0
            }) * 1_000_000_000 < guard.window_secs * 1_000_000_000 + guard.window_fraction;
        let live = |at: u64| priority::is_live(at, now, guard.window_nanos());
        assert(spelled =~= live);
    }
}

/// Restoring an entry always queues it, and puts the stamp of an emergency
/// payment at the end of the guard's record.
pub proof fn restoring_queues_and_records(state: QueueState, entry: QueuedTx)
    ensures
        state.after_restore(entry).entries == state.with(entry).entries,
        !(entry.priority is Emergency) || state.guard is None ==> state.after_restore(entry).guard
            == state.guard,
        entry.priority is Emergency && state.guard is Some ==> {
            let after = state.after_restore(entry).guard;
            &&& after is Some
            &&& after->0.history == state.guard->0.history.push(entry.enqueued_at)
            &&& after->0.max_count == state.guard->0.max_count
            &&& after->0.window_secs == state.guard->0.window_secs
            &&& after->0.window_fraction == state.guard->0.window_fraction
        },
{
}

/// Popping takes out the first entry and no other, and leaves the guard as it
/// is.
pub proof fn popping_takes_the_first_entry(state: QueueState)
    ensures
        state.after_pop().guard == state.guard,
        state.entries.len() == 0 ==> state.after_pop().entries == state.entries,
        state.entries.len() > 0 ==> seq![state.entries[0]] + state.after_pop().entries
            == state.entries,
{
    if state.entries.len() > 0 {
        assert(seq![state.entries[0]] + state.after_pop().entries =~= state.entries);
    }
}

/// Counting the times in a window comes to the same as picking them out.
proof fn count_is_of_those_picked_out(times: Seq<u64>, end: u64, window_nanos: nat)
    ensures
        count_in_window(times, end, window_nanos) == times.filter(
            |t: u64| t <= end && (end - t) * 1_000_000_000 < window_nanos,
        ).len(),
    decreases times.len(),
{
    reveal(Seq::filter);
    if times.len() > 0 {
        count_is_of_those_picked_out(times.drop_last(), end, window_nanos);
    }
}

/// A queue made with a limit keeps it: among the emergency payments that it
/// admits, pushed in the order of their stamps, no more than the configured
/// number lie in any window of the configured length, wherever it ends, and
/// whatever else is called.
pub proof fn configured_limit_holds_in_every_window(
    config: EmergencyGuardConfig,
    ops: Seq<QueueOp>,
    end: u64,
)
    requires
        asked_in_order(ops),
    ensures
        admitted_times(
            QueueState { entries: Seq::empty(), guard: Some(priority::fresh_guard(config)) },
            ops,
        ).filter(
            |t: u64|
                t <= end && (end - t) * 1_000_000_000 < priority::whole_secs(config.window)
                    * 1_000_000_000 + priority::fraction_nanos(config.window),
        ).len() <= config.max_count,
{
    let state = QueueState {
        entries: Seq::empty(),
        guard: Some(priority::fresh_guard(config)),
    };
    let window_nanos = state.guard->0.window_nanos();
    no_window_admits_more_than_the_limit(state, ops, end);
    count_is_of_those_picked_out(admitted_times(state, ops), end, window_nanos);
    let spelled = |t: u64|
        t <= end && (end - t) * 1_000_000_000 < priority::whole_secs(config.window) * 1_000_000_000
            + priority::fraction_nanos(config.window);
    assert(spelled =~= (|t: u64| t <= end && (end - t) * 1_000_000_000 < window_nanos));
}

/// A queue made with a limit refuses an emergency payment exactly where as
/// many payments as configured, or more, have been accepted that are younger
/// than the configured window, restored ones included. The answer has their
/// number and the configuration. The queue must not have been asked before as
/// of a later time.
pub proof fn configured_limit_is_the_only_reason_to_refuse(
    config: EmergencyGuardConfig,
    ops: Seq<QueueOp>,
    entry: QueuedTx,
)
    requires
        entry.priority is Emergency,
        asked_by(ops, entry.enqueued_at),
    ensures
        ({
            let fresh = QueueState {
                entries: Seq::empty(),
                guard: Some(priority::fresh_guard(config)),
            };
            let now = entry.enqueued_at;
            let young = emergency_times(fresh.accepted(ops)).filter(
                |t: u64|
                    (if now > t {
                        now - t
                    } else {
                        0
                    }) * 1_000_000_000 < priority::whole_secs(config.window) * 1_000_000_000
                        + priority::fraction_nanos(config.window),
            );
            &&& fresh.run(ops).verdict(entry) is Ok <==> young.len() < config.max_count
            &&& young.len() >= config.max_count ==> fresh.run(ops).verdict(entry) == Err::<
                (),
                ErrorView,
            >(
                ErrorView::EmergencyQueueLimitExceeded {
                    current: young.len() as usize,
                    max: config.max_count,
                    window_secs: priority::whole_secs(config.window),
                },
            )
        }),
{
    let fresh = QueueState {
        entries: Seq::empty(),
        guard: Some(priority::fresh_guard(config)),
    };
    let now = entry.enqueued_at;
    let times = emergency_times(fresh.accepted(ops));
    let window_nanos = fresh.guard->0.window_nanos();
    limit_is_kept(fresh, ops);
    pruning_forgets_nothing(fresh, ops, now);
    assert(record(fresh, ops) =~= times);
    let spelled = |t: u64|
        (if now > t {
            now - t
        } else {
            0
        }) * 1_000_000_000 < priority::whole_secs(config.window) * 1_000_000_000
            + priority::fraction_nanos(config.window);
    assert(spelled =~= (|at: u64| priority::is_live(at, now, window_nanos)));
}

/// Pruning as of any time leaves no more times that are live as of another.
proof fn pruning_adds_nothing(times: Seq<u64>, at: u64, now: u64, window_nanos: nat)
    ensures
        priority::pruned(priority::pruned(times, at, window_nanos), now, window_nanos).len()
            <= priority::pruned(times, now, window_nanos).len(),
    decreases times.len(),
{
    if times.len() > 0 {
        let shorter = times.drop_last();
        let last = times.last();
        assert(shorter.push(last) =~= times);
        pruning_adds_nothing(shorter, at, now, window_nanos);
        priority::pruned_with_one_more(shorter, last, at, window_nanos);
        priority::pruned_with_one_more(shorter, last, now, window_nanos);
        priority::pruned_with_one_more(
            priority::pruned(shorter, at, window_nanos),
            last,
            now,
            window_nanos,
        );
    } else {
        reveal(Seq::filter);
    }
}

/// The guard never holds more that is live than all that it ever had on its
/// record.
proof fn guard_invents_nothing(state: QueueState, ops: Seq<QueueOp>, now: u64)
    requires
        state.guard is Some,
    ensures
        priority::pruned(
            state.run(ops).guard->0.history,
            now,
            state.guard->0.window_nanos(),
        ).len() <= priority::pruned(record(state, ops), now, state.guard->0.window_nanos()).len(),
    decreases ops.len(),
{
    let window_nanos = state.guard->0.window_nanos();
    limit_is_kept(state, ops);
    if ops.len() > 0 {
        let earlier = ops.drop_last();
        let held = state.run(earlier).guard->0.history;
        let all = record(state, earlier);
        guard_invents_nothing(state, earlier, now);
        limit_is_kept(state, earlier);
        record_grows(state, ops);
        match ops.last() {
            QueueOp::Push { entry } => {
                if entry.priority == TxPriority::Emergency {
                    let at = entry.enqueued_at;
                    let checked = priority::pruned(held, at, window_nanos);
                    pruning_adds_nothing(held, at, now, window_nanos);
                    priority::pruned_with_one_more(all, at, now, window_nanos);
                    priority::pruned_with_one_more(checked, at, now, window_nanos);
                }
            },
            QueueOp::Restore { entry } => {
                priority::pruned_with_one_more(all, entry.enqueued_at, now, window_nanos);
                priority::pruned_with_one_more(held, entry.enqueued_at, now, window_nanos);
            },
            QueueOp::Pop => {},
        }
    } else {
        assert(record(state, ops) =~= state.guard->0.history);
    }
}

/// Whatever the order of the stamps, a queue made with a limit refuses a push
/// only where it is of an emergency payment, and as many payments as
/// configured, or more, have been accepted that are younger than the
/// configured window.
pub proof fn refusal_needs_a_full_window(
    config: EmergencyGuardConfig,
    ops: Seq<QueueOp>,
    entry: QueuedTx,
)
    requires
        (QueueState { entries: Seq::empty(), guard: Some(priority::fresh_guard(config)) }).run(
            ops,
        ).verdict(entry) is Err,
    ensures
        entry.priority is Emergency,
        ({
            let fresh = QueueState {
                entries: Seq::empty(),
                guard: Some(priority::fresh_guard(config)),
            };
            let now = entry.enqueued_at;
            emergency_times(fresh.accepted(ops)).filter(
                |t: u64|
                    (if now > t {
                        now - t
                    } else {
                        0
                    }) * 1_000_000_000 < priority::whole_secs(config.window) * 1_000_000_000
                        + priority::fraction_nanos(config.window),
            ).len() >= config.max_count
        }),
{
    let fresh = QueueState {
        entries: Seq::empty(),
        guard: Some(priority::fresh_guard(config)),
    };
    let now = entry.enqueued_at;
    let window_nanos = fresh.guard->0.window_nanos();
    limit_is_kept(fresh, ops);
    guard_invents_nothing(fresh, ops, now);
    assert(record(fresh, ops) =~= emergency_times(fresh.accepted(ops)));
    let spelled = |t: u64|
        (if now > t {
            now - t
        } else {
            0
        }) * 1_000_000_000 < priority::whole_secs(config.window) * 1_000_000_000
            + priority::fraction_nanos(config.window);
    assert(spelled =~= (|at: u64| priority::is_live(at, now, window_nanos)));
}

} // verus!
