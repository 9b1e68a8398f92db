//! The order in which a device hands its own payments to the mesh.
//!
//! An emergency payment goes ahead of a routine one that was queued earlier.
//! That makes the emergency tier the one that a thief would use: whoever holds
//! an unlocked device could queue any number of payments that settle before
//! the owner's own. A queue can therefore be given an
//! [`EmergencyGuardConfig`], which caps how many emergency payments are
//! admitted within a rolling window.
//!
//! - The guard counts payments; it does not look at amounts or accounts.
//! - The limit is set when the queue is made. A personal wallet and a shared
//!   terminal want different ones.
//! - The queue lives in memory and is rebuilt from storage at start-up.
//!   [`OutboundTxQueue::restore_at`] takes back what had been accepted before,
//!   without asking the guard again, and puts it on the guard's record. A
//!   restart therefore does not reset the count.
//!
//! A queue belongs to one owner on one thread. It is neither `Send` nor
//! `Sync`: a lock round it is for whoever also guards the reservations and the
//! settlement state that change with it.
use std::collections::VecDeque;
use std::marker::PhantomData;
use std::rc::Rc;
use std::sync::Arc;
use std::time::Duration;
use vstd::prelude::*;
use vstd::std_specs::convert::FromSpecImpl;
use vstd::std_specs::convert::TryFromSpecImpl;
use vstd::string::*;

use crate::clock::Clock;
use crate::errors::{ErrorView, SyncEngineError};
use crate::message::TransactionEnvelope;
use crate::text;

verus! {

/// How urgent a payment is. Later variants go first.
#[derive(Debug, Clone, Copy, PartialEq, Eq, PartialOrd, Ord, Structural)]
pub enum TxPriority {
    Low,
    Normal,
    Emergency,
}

/// The number that a priority is stored as.
pub open spec fn rank(priority: TxPriority) -> i64 {
    match priority {
        TxPriority::Low => 0,
        TxPriority::Normal => 1,
        TxPriority::Emergency => 2,
    }
}

/// The priority that a number stands for.
pub open spec fn priority_of(value: i64) -> Option<TxPriority> {
    if value == 0 {
        Some(TxPriority::Low)
    } else if value == 1 {
        Some(TxPriority::Normal)
    } else if value == 2 {
        Some(TxPriority::Emergency)
    } else {
        None
    }
}

impl From<TxPriority> for i64 {
    fn from(p: TxPriority) -> (value: i64)
        ensures
            p is Low ==> value == 0,
            p is Normal ==> value == 1,
            p is Emergency ==> value == 2,
    {
        match p {
            TxPriority::Low => 0,
            TxPriority::Normal => 1,
            TxPriority::Emergency => 2,
        }
    }
}

impl FromSpecImpl<TxPriority> for i64 {
    open spec fn obeys_from_spec() -> bool {
        true
    }

    open spec fn from_spec(p: TxPriority) -> i64 {
        rank(p)
    }
}

impl TryFrom<i64> for TxPriority {
    type Error = SyncEngineError;

    fn try_from(value: i64) -> (result: Result<Self, SyncEngineError>)
        ensures
            match result {
                Ok(priority) => priority_of(value) == Some(priority),
                Err(e) => priority_of(value) is None && e@ == ErrorView::InvalidEnvelope(
                    "unknown TxPriority discriminant "@ + text::signed_decimal(value as int),
                ),
            },
            value == 0 ==> (result matches Ok(priority) && priority is Low),
            value == 1 ==> (result matches Ok(priority) && priority is Normal),
            value == 2 ==> (result matches Ok(priority) && priority is Emergency),
            value < 0 || value > 2 ==> (result matches Err(SyncEngineError::InvalidEnvelope(reason))
                && reason@ == "unknown TxPriority discriminant "@ + text::signed_decimal(
                value as int,
            )),
    {
        match value {
            0 => Ok(TxPriority::Low),
            1 => Ok(TxPriority::Normal),
            2 => Ok(TxPriority::Emergency),
            other => {
                let mut message = String::from("unknown TxPriority discriminant ");
                message.append(text::signed_decimal_text(other).as_str());
                Err(SyncEngineError::InvalidEnvelope(message))
            },
        }
    }
}

impl TryFromSpecImpl<i64> for TxPriority {
    open spec fn obeys_try_from_spec() -> bool {
        false
    }

    open spec fn try_from_spec(value: i64) -> Result<Self, SyncEngineError> {
        arbitrary()
    }
}

/// A priority survives being stored: the number it is stored as stands for
/// it, and for no other.
pub proof fn priority_survives_storage(priority: TxPriority, value: i64)
    ensures
        priority_of(rank(priority)) == Some(priority),
        priority_of(value) == Some(priority) ==> value == rank(priority),
{
}

/// The more urgent a priority, the larger the number it is stored as, counting
/// from zero without gaps. No other number stands for a priority.
pub proof fn stored_numbers_rise_with_urgency(priority: TxPriority, value: i64)
    ensures
        priority is Low <==> rank(priority) == 0,
        priority is Normal <==> rank(priority) == 1,
        priority is Emergency <==> rank(priority) == 2,
        priority_of(value) is Some <==> 0 <= value <= 2,
        value == 0 ==> priority_of(value) == Some(TxPriority::Low),
        value == 1 ==> priority_of(value) == Some(TxPriority::Normal),
        value == 2 ==> priority_of(value) == Some(TxPriority::Emergency),
{
}

/// An envelope that waits in a queue.
#[derive(Debug, Clone)]
pub struct QueuedTx {
    pub priority: TxPriority,
    /// Unix seconds at which the envelope was queued.
    pub enqueued_at: u64,
    pub envelope: TransactionEnvelope,
}

impl QueuedTx {
    /// Whether this entry goes first where it was queued before `later`:
    /// it is more urgent, or as urgent and not stamped later.
    pub open spec fn precedes(self, later: QueuedTx) -> bool {
        rank(self.priority) > rank(later.priority) || self.priority == later.priority
            && self.enqueued_at <= later.enqueued_at
    }

    /// The executable form of [`QueuedTx::precedes`].
    fn goes_first(&self, later: &QueuedTx) -> (first: bool)
        ensures
            first == self.precedes(*later),
            self.priority == later.priority ==> first == (self.enqueued_at <= later.enqueued_at),
            self.priority is Emergency && !(later.priority is Emergency) ==> first,
            self.priority is Low && !(later.priority is Low) ==> !first,
    {
        let mine = i64::from(self.priority);
        let theirs = i64::from(later.priority);
        mine > theirs || mine == theirs && self.enqueued_at <= later.enqueued_at
    }
}

/// How many emergency payments a queue admits: at most `max_count` within
/// any trailing `window`.
#[derive(Debug, Clone, Copy)]
pub struct EmergencyGuardConfig {
    pub max_count: usize,
    pub window: Duration,
}

impl EmergencyGuardConfig {
    /// A limit of `max_count` emergency payments within `window`.
    pub fn new(max_count: usize, window: Duration) -> (config: Self)
        ensures
            config.max_count == max_count,
            config.window == window,
    {
        EmergencyGuardConfig { max_count, window }
    }
}

/// The whole seconds of a duration.
pub uninterp spec fn whole_secs(duration: Duration) -> u64;

/// The nanoseconds of a duration beyond its whole seconds.
pub uninterp spec fn fraction_nanos(duration: Duration) -> u32;

/// `Duration::as_secs`: the number of whole seconds in a duration, which is a
/// function of the duration alone.
pub assume_specification[ Duration::as_secs ](duration: &Duration) -> (secs: u64)
    ensures
        secs == whole_secs(*duration),
;

/// `Duration::subsec_nanos`: the part of a duration beyond its whole seconds,
/// in nanoseconds, which is less than a second and a function of the duration
/// alone.
pub assume_specification[ Duration::subsec_nanos ](duration: &Duration) -> (nanos: u32)
    ensures
        nanos == fraction_nanos(*duration),
        nanos < 1_000_000_000,
;

/// The seconds that have passed at `now` since `at`; none where `at` is still
/// to come.
pub open spec fn elapsed(at: u64, now: u64) -> int {
    if now > at {
        now - at
    } else {
        0
    }
}

/// Whether `at` lies in the window of that many nanoseconds that trails
/// `now`: it is younger than the whole window.
pub open spec fn is_live(at: u64, now: u64, window_nanos: nat) -> bool {
    elapsed(at, now) * 1_000_000_000 < window_nanos
}

/// What is left of a record of times once those that are as old as the window
/// have been dropped, wherever they stand.
pub open spec fn pruned(times: Seq<u64>, now: u64, window_nanos: nat) -> Seq<u64> {
    times.filter(|at: u64| is_live(at, now, window_nanos))
}

/// Pruning looks at each time by itself: what it leaves of a record with one
/// more time is what it leaves of the record, and the time if it is live.
pub proof fn pruned_with_one_more(times: Seq<u64>, at: u64, now: u64, window_nanos: nat)
    ensures
        pruned(times.push(at), now, window_nanos) == if is_live(at, now, window_nanos) {
            pruned(times, now, window_nanos).push(at)
        } else {
            pruned(times, now, window_nanos)
        },
{
    reveal(Seq::filter);
    assert(times.push(at).drop_last() =~= times);
}

/// An emergency guard: its limit, and the times of the emergency payments on
/// its record.
#[verifier::ext_equal]
pub struct GuardState {
    pub max_count: usize,
    /// The whole seconds of the window.
    pub window_secs: u64,
    /// The nanoseconds of the window beyond them.
    pub window_fraction: u32,
    pub history: Seq<u64>,
}

impl GuardState {
    /// The length of the window in nanoseconds.
    pub open spec fn window_nanos(self) -> nat {
        (self.window_secs * 1_000_000_000 + self.window_fraction) as nat
    }

    /// The guard once it has looked at its record at `now`.
    pub open spec fn checked(self, now: u64) -> Self {
        GuardState { history: pruned(self.history, now, self.window_nanos()), ..self }
    }

    /// Whether the guard has room for an emergency payment at `now`.
    pub open spec fn has_room(self, now: u64) -> bool {
        self.checked(now).history.len() < self.max_count
    }

    /// The guard with one more payment on its record.
    pub open spec fn with(self, at: u64) -> Self {
        GuardState { history: self.history.push(at), ..self }
    }
}

/// The limit on emergency payments, and the record it is held against.
#[derive(Debug)]
struct EmergencyGuard {
    max_count: usize,
    window_secs: u64,
    window_fraction: u32,
    history: VecDeque<u64>,
}

impl View for EmergencyGuard {
    type V = GuardState;

    closed spec fn view(&self) -> GuardState {
        GuardState {
            max_count: self.max_count,
            window_secs: self.window_secs,
            window_fraction: self.window_fraction,
            history: self.history@,
        }
    }
}

impl EmergencyGuard {
    /// A guard with nothing on its record.
    fn new(config: EmergencyGuardConfig) -> (guard: Self)
        ensures
            guard@ == fresh_guard(config),
    {
        EmergencyGuard {
            max_count: config.max_count,
            window_secs: config.window.as_secs(),
            window_fraction: config.window.subsec_nanos(),
            history: VecDeque::new(),
        }
    }

    /// Drops the entries of the record that are as old as the window.
    fn prune(&mut self, now: u64)
        ensures
            final(self)@ == old(self)@.checked(now),
    {
        let ghost window_nanos = self@.window_nanos();
        let window: u128 = self.window_secs as u128 * 1_000_000_000 + self.window_fraction as u128;
        let mut kept: VecDeque<u64> = VecDeque::new();
        let mut i: usize = 0;
        proof {
            reveal(Seq::filter);
        }
        while i < self.history.len()
            invariant
                i <= self.history@.len(),
                *self == *old(self),
                window == window_nanos,
                kept@ == pruned(self.history@.take(i as int), now, window_nanos),
            decreases self.history@.len() - i,
        {
            let at = self.history[i];
            let age: u128 = now.saturating_sub(at) as u128 * 1_000_000_000;
            if age < window {
                kept.push_back(at);
            }
            proof {
                assert(self.history@.take(i + 1) =~= self.history@.take(i as int).push(at));
                pruned_with_one_more(self.history@.take(i as int), at, now, window_nanos);
            }
            i += 1;
        }
        assert(self.history@.take(i as int) =~= self.history@);
        self.history = kept;
    }

    /// Refuses where the record leaves no room for an emergency payment at
    /// `now`.
    fn check(&mut self, now: u64) -> (result: Result<(), SyncEngineError>)
        ensures
            final(self)@ == old(self)@.checked(now),
            match result {
                Ok(_) => old(self)@.has_room(now),
                Err(e) => !old(self)@.has_room(now) && e@
                    == ErrorView::EmergencyQueueLimitExceeded {
                    current: old(self)@.checked(now).history.len() as usize,
                    max: old(self)@.max_count,
                    window_secs: old(self)@.window_secs,
                },
            },
            result matches Err(e) ==> (e matches SyncEngineError::EmergencyQueueLimitExceeded {
                current,
                max,
                window_secs,
            } && current == final(self)@.history.len() && max == old(self)@.max_count && window_secs
                == old(self)@.window_secs && current >= max),
    {
        self.prune(now);
        if self.history.len() >= self.max_count {
            return Err(
                SyncEngineError::EmergencyQueueLimitExceeded {
                    current: self.history.len(),
                    max: self.max_count,
                    window_secs: self.window_secs,
                },
            );
        }
        Ok(())
    }

    /// Puts an emergency payment on record.
    fn record(&mut self, at: u64)
        ensures
            final(self)@ == old(self)@.with(at),
    {
        self.history.push_back(at);
    }
}

/// A guard as configured, with nothing on its record.
pub open spec fn fresh_guard(config: EmergencyGuardConfig) -> GuardState {
    GuardState {
        max_count: config.max_count,
        window_secs: whole_secs(config.window),
        window_fraction: fraction_nanos(config.window),
        history: Seq::empty(),
    }
}

/// What a queue holds: the waiting entries in the order in which they will go,
/// and its guard, if it has one.
#[verifier::ext_equal]
pub struct QueueState {
    pub entries: Seq<QueuedTx>,
    pub guard: Option<GuardState>,
}

/// How many of the waiting entries go before an entry that is queued now: it
/// goes right behind the last one that precedes it.
pub open spec fn place(entries: Seq<QueuedTx>, entry: QueuedTx) -> int
    decreases entries.len(),
{
    if entries.len() > 0 && !entries.last().precedes(entry) {
        place(entries.drop_last(), entry)
    } else {
        entries.len() as int
    }
}

/// Whether entries stand in the order in which they should go: the more
/// urgent ones first and, among equals, those stamped earlier.
pub open spec fn ordered(entries: Seq<QueuedTx>) -> bool {
    forall|i: int, j: int|
        0 <= i < j < entries.len() ==> (#[trigger] entries[i]).precedes(#[trigger] entries[j])
}

impl QueueState {
    /// Whether the entries stand in the order in which they should go.
    pub open spec fn in_order(self) -> bool {
        ordered(self.entries)
    }

    /// The queue with one more entry, in its place.
    pub open spec fn with(self, entry: QueuedTx) -> Self {
        QueueState {
            entries: self.entries.insert(place(self.entries, entry), entry),
            ..self
        }
    }

    /// Whether the guard has a say in an entry.
    pub open spec fn guards(self, entry: QueuedTx) -> bool {
        entry.priority == TxPriority::Emergency && self.guard is Some
    }

    /// What a push of `entry` is answered with.
    pub open spec fn verdict(self, entry: QueuedTx) -> Result<(), ErrorView> {
        if self.guards(entry) && !self.guard->0.has_room(entry.enqueued_at) {
            Err(
                ErrorView::EmergencyQueueLimitExceeded {
                    current: self.guard->0.checked(entry.enqueued_at).history.len() as usize,
                    max: self.guard->0.max_count,
                    window_secs: self.guard->0.window_secs,
                },
            )
        } else {
            Ok(())
        }
    }

    /// The queue after a push of `entry`. A refused entry leaves nothing
    /// behind; the guard has looked at its record all the same.
    pub open spec fn after_push(self, entry: QueuedTx) -> Self {
        if !self.guards(entry) {
            self.with(entry)
        } else {
            let guard = self.guard->0.checked(entry.enqueued_at);
            if self.verdict(entry) is Ok {
                QueueState { guard: Some(guard.with(entry.enqueued_at)), ..self.with(entry) }
            } else {
                QueueState { guard: Some(guard), ..self }
            }
        }
    }

    /// The queue after `entry` has been restored to it.
    pub open spec fn after_restore(self, entry: QueuedTx) -> Self {
        if self.guards(entry) {
            QueueState {
                guard: Some(self.guard->0.with(entry.enqueued_at)),
                ..self.with(entry)
            }
        } else {
            self.with(entry)
        }
    }

    /// The queue without the entry that goes first, if there is one.
    pub open spec fn after_pop(self) -> Self {
        if self.entries.len() > 0 {
            QueueState { entries: self.entries.drop_first(), ..self }
        } else {
            self
        }
    }
}

/// The place of an entry is one that the queue has.
pub proof fn place_is_within(entries: Seq<QueuedTx>, entry: QueuedTx)
    ensures
        0 <= place(entries, entry) <= entries.len(),
    decreases entries.len(),
{
    if entries.len() > 0 {
        place_is_within(entries.drop_last(), entry);
    }
}

/// An entry lands behind every entry that precedes it and before every other.
pub proof fn place_parts_the_entries(entries: Seq<QueuedTx>, entry: QueuedTx)
    requires
        ordered(entries),
    ensures
        0 <= place(entries, entry) <= entries.len(),
        forall|i: int|
            0 <= i < entries.len() ==> ((#[trigger] entries[i]).precedes(entry) <==> i < place(
                entries,
                entry,
            )),
    decreases entries.len(),
{
    if entries.len() > 0 && !entries.last().precedes(entry) {
        let shorter = entries.drop_last();
        assert(forall|i: int| 0 <= i < shorter.len() ==> #[trigger] shorter[i] == entries[i]);
        place_parts_the_entries(shorter, entry);
        assert forall|i: int| 0 <= i < entries.len() implies ((#[trigger] entries[i]).precedes(
            entry,
        ) <==> i < place(entries, entry)) by {
            if i < entries.len() - 1 {
                assert(shorter[i] == entries[i]);
            }
        }
    } else if entries.len() > 0 {
        assert forall|i: int| 0 <= i < entries.len() implies (#[trigger] entries[i]).precedes(
            entry,
        ) by {
            if i < entries.len() - 1 {
                assert(entries[i].precedes(entries[entries.len() - 1]));
            }
        }
    }
}

/// Queueing an entry keeps the order.
pub proof fn queueing_keeps_order(entries: Seq<QueuedTx>, entry: QueuedTx)
    requires
        ordered(entries),
    ensures
        ordered(entries.insert(place(entries, entry), entry)),
{
    place_parts_the_entries(entries, entry);
    let at = place(entries, entry);
    let longer = entries.insert(at, entry);
    assert forall|i: int, j: int| 0 <= i < j < longer.len() implies (
    #[trigger] longer[i]).precedes(#[trigger] longer[j]) by {
        if i != at && j != at {
            let k = if i < at { i } else { i - 1 };
            let l = if j < at { j } else { j - 1 };
            assert(longer[i] == entries[k] && longer[j] == entries[l]);
        } else if j == at {
            assert(longer[i] == entries[i]);
        } else {
            assert(longer[j] == entries[j - 1]);
        }
    }
}

/// Taking out the entry that goes first keeps the order.
pub proof fn dispatch_keeps_order(entries: Seq<QueuedTx>)
    requires
        ordered(entries),
        entries.len() > 0,
    ensures
        ordered(entries.drop_first()),
{
    let rest = entries.drop_first();
    assert forall|i: int, j: int| 0 <= i < j < rest.len() implies (#[trigger] rest[i]).precedes(
        #[trigger] rest[j],
    ) by {
        assert(entries[i + 1].precedes(entries[j + 1]));
    }
}

/// The waiting entries, always in the order in which they go.
#[derive(Debug)]
struct Waiting {
    /// The entries; the last one goes first.
    entries: Vec<QueuedTx>,
}

impl View for Waiting {
    type V = Seq<QueuedTx>;

    closed spec fn view(&self) -> Seq<QueuedTx> {
        self.entries@.reverse()
    }
}

impl Waiting {
    #[verifier::type_invariant]
    spec fn well_formed(self) -> bool {
        ordered(self@)
    }

    fn new() -> (waiting: Self)
        ensures
            waiting@ == Seq::<QueuedTx>::empty(),
    {
        let entries: Vec<QueuedTx> = Vec::new();
        assert(entries@.reverse() =~= Seq::<QueuedTx>::empty());
        Waiting { entries }
    }

    /// Puts `entry` in its place.
    fn insert(&mut self, entry: QueuedTx)
        ensures
            final(self)@ == old(self)@.insert(place(old(self)@, entry), entry),
    {
        proof {
            use_type_invariant(&*self);
        }
        let ghost before = self@;
        let mut entries: Vec<QueuedTx> = Vec::new();
        assert(entries@.reverse() =~= Seq::<QueuedTx>::empty());
        std::mem::swap(&mut self.entries, &mut entries);
        let mut at: usize = 0;
        assert(before.take(before.len() as int) =~= before);
        while at < entries.len() && !entries[at].goes_first(&entry)
            invariant
                at <= entries.len(),
                before == entries@.reverse(),
                place(before, entry) == place(before.take(before.len() - at), entry),
            decreases entries.len() - at,
        {
            let ghost rest = before.take(before.len() - at);
            assert(rest.last() == entries@[at as int]);
            assert(rest.drop_last() =~= before.take(before.len() - at - 1));
            at += 1;
        }
        let ghost rest = before.take(before.len() - at);
        assert(rest.len() > 0 ==> rest.last() == entries@[at as int]);
        assert(place(before, entry) == before.len() - at);
        entries.insert(at, entry);
        assert(entries@.reverse() =~= before.insert(before.len() - at, entry));
        proof {
            queueing_keeps_order(before, entry);
        }
        self.entries = entries;
    }

    /// Takes out the entry that goes first.
    fn pop(&mut self) -> (popped: Option<QueuedTx>)
        ensures
            match popped {
                Some(entry) => old(self)@.len() > 0 && entry == old(self)@[0] && final(self)@
                    == old(self)@.drop_first(),
                None => old(self)@.len() == 0 && final(self)@ == old(self)@,
            },
    {
        proof {
            use_type_invariant(&*self);
        }
        let ghost before = self@;
        let mut entries: Vec<QueuedTx> = Vec::new();
        assert(entries@.reverse() =~= Seq::<QueuedTx>::empty());
        std::mem::swap(&mut self.entries, &mut entries);
        let popped = entries.pop();
        proof {
            if popped is Some {
                assert(entries@.reverse() =~= before.drop_first());
                dispatch_keeps_order(before);
            } else {
                assert(entries@.reverse() =~= before);
            }
        }
        self.entries = entries;
        popped
    }
}

/// The payments of this device that wait to be handed to the mesh, the most
/// urgent first and, among equals, the one stamped earlier first. Entries that
/// are equal in both go in the order in which they came.
#[derive(Debug)]
pub struct OutboundTxQueue<C: Clock + ?Sized> {
    waiting: Waiting,
    emergency_guard: Option<EmergencyGuard>,
    clock: Arc<C>,
    /// Keeps the type on one thread.
    _single_owner: PhantomData<Rc<()>>,
}

impl<C: Clock + ?Sized> View for OutboundTxQueue<C> {
    type V = QueueState;

    closed spec fn view(&self) -> QueueState {
        QueueState {
            entries: self.waiting@,
            guard: match self.emergency_guard {
                Some(guard) => Some(guard@),
                None => None,
            },
        }
    }
}

/// Whether an answer in code is the answer in the model.
pub open spec fn answers(
    result: Result<(), SyncEngineError>,
    verdict: Result<(), ErrorView>,
) -> bool {
    match result {
        Ok(_) => verdict == Ok::<(), ErrorView>(()),
        Err(e) => verdict == Err::<(), ErrorView>(e@),
    }
}

impl<C: Clock + ?Sized> OutboundTxQueue<C> {
    /// The clock that [`OutboundTxQueue::push`] reads.
    pub closed spec fn clock_spec(&self) -> Arc<C> {
        self.clock
    }

    /// An empty queue without a guard.
    pub fn new(clock: Arc<C>) -> (queue: Self)
        ensures
            queue@ == (QueueState { entries: Seq::empty(), guard: None }),
            queue@.entries.len() == 0,
            queue@.guard is None,
            queue.clock_spec() == clock,
    {
        let queue = OutboundTxQueue {
            waiting: Waiting::new(),
            emergency_guard: None,
            clock,
            _single_owner: PhantomData,
        };
        queue
    }

    /// An empty queue that refuses emergency payments beyond the limit of
    /// `guard_config`. Other payments are never refused.
    pub fn with_emergency_guard(guard_config: EmergencyGuardConfig, clock: Arc<C>) -> (queue: Self)
        ensures
            queue@ == (QueueState {
                entries: Seq::empty(),
                guard: Some(fresh_guard(guard_config)),
            }),
            queue@.entries.len() == 0,
            queue@.guard matches Some(guard) && guard.max_count == guard_config.max_count
                && guard.window_secs == whole_secs(guard_config.window) && guard.window_fraction
                == fraction_nanos(guard_config.window) && guard.history.len() == 0,
            queue.clock_spec() == clock,
    {
        let queue = OutboundTxQueue {
            waiting: Waiting::new(),
            emergency_guard: Some(EmergencyGuard::new(guard_config)),
            clock,
            _single_owner: PhantomData,
        };
        queue
    }

    /// Queues `envelope`, stamped with the time that the clock shows.
    ///
    /// An emergency payment that the guard has no room for is refused, and
    /// not queued: a sign that the owner should be asked to confirm.
    pub fn push(&mut self, envelope: TransactionEnvelope, priority: TxPriority) -> (result: Result<
        (),
        SyncEngineError,
    >)
        ensures
            final(self).clock_spec() == old(self).clock_spec(),
            final(self)@.in_order(),
            exists|now: u64| #[trigger]
                call_ensures(C::now_secs, (&*old(self).clock_spec(),), now) && {
                    let entry = QueuedTx { priority, enqueued_at: now, envelope };
                    &&& final(self)@ == old(self)@.after_push(entry)
                    &&& answers(result, old(self)@.verdict(entry))
                    &&& result is Ok <==> old(self)@.verdict(entry) is Ok
                    &&& result matches Err(e) ==> old(self)@.verdict(entry) == Err::<(), ErrorView>(
                        e@,
                    )
                },
            !(priority is Emergency) || old(self)@.guard is None ==> result is Ok,
    {
        let enqueued_at = self.clock.now_secs();
        assert(call_ensures(C::now_secs, (&*self.clock,), enqueued_at));
        assert(call_ensures(C::now_secs, (&*old(self).clock_spec(),), enqueued_at));
        self.push_at(envelope, priority, enqueued_at)
    }

    /// Queues `envelope`, stamped with `enqueued_at`. The guard is asked as of
    /// that time.
    pub fn push_at(
        &mut self,
        envelope: TransactionEnvelope,
        priority: TxPriority,
        enqueued_at: u64,
    ) -> (result: Result<(), SyncEngineError>)
        ensures
            final(self).clock_spec() == old(self).clock_spec(),
            final(self)@.in_order(),
            final(self)@ == old(self)@.after_push(QueuedTx { priority, enqueued_at, envelope }),
            answers(result, old(self)@.verdict(QueuedTx { priority, enqueued_at, envelope })),
            result is Ok <==> old(self)@.verdict(QueuedTx { priority, enqueued_at, envelope })
                is Ok,
            result matches Err(e) ==> old(self)@.verdict(
                QueuedTx { priority, enqueued_at, envelope },
            ) == Err::<(), ErrorView>(e@),
            !(priority is Emergency) || old(self)@.guard is None ==> result is Ok
                && final(self)@.guard == old(self)@.guard,
            result is Ok ==> exists|at: int|
                0 <= at <= old(self)@.entries.len() && final(self)@.entries
                    == #[trigger] old(self)@.entries.insert(
                    at,
                    QueuedTx { priority, enqueued_at, envelope },
                ),
            result is Err ==> final(self)@.entries == old(self)@.entries,
            result is Err ==> (result matches Err(
                SyncEngineError::EmergencyQueueLimitExceeded { current, max, window_secs },
            ) && old(self)@.guard is Some && max == old(self)@.guard->0.max_count && window_secs
                == old(self)@.guard->0.window_secs && final(self)@.guard is Some && current
                == final(self)@.guard->0.history.len() && current >= max),
    {
        if priority == TxPriority::Emergency {
            if let Some(guard) = &mut self.emergency_guard {
                if let Err(e) = guard.check(enqueued_at) {
                    proof {
                        use_type_invariant(&self.waiting);
                    }
                    return Err(e);
                }
                guard.record(enqueued_at);
            }
        }
        self.waiting.insert(QueuedTx { priority, enqueued_at, envelope });
        proof {
            use_type_invariant(&self.waiting);
            place_is_within(old(self)@.entries, QueuedTx { priority, enqueued_at, envelope });
        }
        Ok(())
    }

    /// Takes back an envelope that had been accepted before, as after a
    /// restart. The guard is not asked, and so never refuses; an emergency
    /// payment is put on its record.
    pub fn restore_at(
        &mut self,
        envelope: TransactionEnvelope,
        priority: TxPriority,
        enqueued_at: u64,
    )
        ensures
            final(self).clock_spec() == old(self).clock_spec(),
            final(self)@.in_order(),
            final(self)@ == old(self)@.after_restore(QueuedTx { priority, enqueued_at, envelope }),
            exists|at: int|
                0 <= at <= old(self)@.entries.len() && final(self)@.entries
                    == #[trigger] old(self)@.entries.insert(
                    at,
                    QueuedTx { priority, enqueued_at, envelope },
                ),
            !(priority is Emergency) || old(self)@.guard is None ==> final(self)@.guard
                == old(self)@.guard,
            priority is Emergency && old(self)@.guard is Some ==> {
                &&& final(self)@.guard is Some
                &&& final(self)@.guard->0.history == old(self)@.guard->0.history.push(enqueued_at)
                &&& final(self)@.guard->0.max_count == old(self)@.guard->0.max_count
                &&& final(self)@.guard->0.window_secs == old(self)@.guard->0.window_secs
                &&& final(self)@.guard->0.window_fraction == old(self)@.guard->0.window_fraction
            },
    {
        if priority == TxPriority::Emergency {
            if let Some(guard) = &mut self.emergency_guard {
                guard.record(enqueued_at);
            }
        }
        self.waiting.insert(QueuedTx { priority, enqueued_at, envelope });
        proof {
            use_type_invariant(&self.waiting);
            place_is_within(old(self)@.entries, QueuedTx { priority, enqueued_at, envelope });
        }
    }

    /// Takes out the envelope that goes first.
    pub fn pop(&mut self) -> (popped: Option<TransactionEnvelope>)
        ensures
            final(self).clock_spec() == old(self).clock_spec(),
            old(self)@.in_order(),
            final(self)@.in_order(),
            final(self)@ == old(self)@.after_pop(),
            final(self)@.guard == old(self)@.guard,
            old(self)@.entries.len() == 0 ==> final(self)@.entries == old(self)@.entries,
            old(self)@.entries.len() > 0 ==> final(self)@.entries == old(self)@.entries.subrange(
                1,
                old(self)@.entries.len() as int,
            ),
            popped == if old(self)@.entries.len() > 0 {
                Some(old(self)@.entries[0].envelope)
            } else {
                None
            },
    {
        proof {
            use_type_invariant(&self.waiting);
        }
        let popped = self.waiting.pop();
        proof {
            use_type_invariant(&self.waiting);
        }
        match popped {
            Some(entry) => Some(entry.envelope),
            None => None,
        }
    }

    /// The envelope that goes first, left where it is.
    pub fn peek(&self) -> (next: Option<&TransactionEnvelope>)
        ensures
            self@.in_order(),
            next == if self@.entries.len() > 0 {
                Some(&self@.entries[0].envelope)
            } else {
                None
            },
    {
        proof {
            use_type_invariant(&self.waiting);
        }
        let entries = &self.waiting.entries;
        if entries.len() > 0 {
            Some(&entries[entries.len() - 1].envelope)
        } else {
            None
        }
    }

    /// How many envelopes wait.
    pub fn len(&self) -> (count: usize)
        ensures
            count == self@.entries.len(),
    {
        self.waiting.entries.len()
    }

    /// Whether no envelope waits.
    pub fn is_empty(&self) -> (empty: bool)
        ensures
            empty == (self@.entries.len() == 0),
    {
        self.waiting.entries.len() == 0
    }
}

impl<C: Clock + Default> Default for OutboundTxQueue<C> {
    /// An empty queue without a guard, on a clock of the default kind.
    fn default() -> (queue: Self)
        ensures
            queue@ == (QueueState { entries: Seq::empty(), guard: None }),
            queue@.entries.len() == 0,
            queue@.guard is None,
            call_ensures(C::default, (), *queue.clock_spec()),
    {
        Self::new(Arc::new(C::default()))
    }
}

} // verus!
