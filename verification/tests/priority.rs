use std::sync::Arc;
use std::time::Duration;

use stellarconduit_sync_engine::clock::{Clock, MockClock};
use stellarconduit_sync_engine::errors::SyncEngineError;
use stellarconduit_sync_engine::message::TransactionEnvelope;
use stellarconduit_sync_engine::queue::{EmergencyGuardConfig, OutboundTxQueue, TxPriority};

fn mock_envelope(message_id: u8) -> TransactionEnvelope {
    TransactionEnvelope {
        message_id: [message_id; 32],
        origin_pubkey: [1u8; 32],
        tx_xdr: "mock_xdr".to_string(),
        ttl_hops: 10,
        timestamp: 1_700_000_000,
        signature: [0u8; 64],
    }
}

#[test]
fn test_higher_priority_pops_first() {
    let clock = Arc::new(MockClock::new(100));
    let mut q = OutboundTxQueue::new(clock);
    q.push(mock_envelope(1), TxPriority::Low).unwrap();
    q.push(mock_envelope(2), TxPriority::Emergency).unwrap();
    q.push(mock_envelope(3), TxPriority::Normal).unwrap();

    assert_eq!(q.pop().unwrap().message_id, [2u8; 32]);
    assert_eq!(q.pop().unwrap().message_id, [3u8; 32]);
    assert_eq!(q.pop().unwrap().message_id, [1u8; 32]);
    assert!(q.pop().is_none());
}

#[test]
fn test_fifo_within_same_priority() {
    let clock = Arc::new(MockClock::new(100));
    let mut q = OutboundTxQueue::new(clock);
    q.push_at(mock_envelope(1), TxPriority::Normal, 100).unwrap();
    q.push_at(mock_envelope(2), TxPriority::Normal, 50).unwrap();
    q.push_at(mock_envelope(3), TxPriority::Normal, 200).unwrap();

    // Oldest enqueued_at (50) should come out first.
    assert_eq!(q.pop().unwrap().message_id, [2u8; 32]);
    assert_eq!(q.pop().unwrap().message_id, [1u8; 32]);
    assert_eq!(q.pop().unwrap().message_id, [3u8; 32]);
}

#[test]
fn test_len_and_is_empty() {
    let clock = Arc::new(MockClock::new(100));
    let mut q = OutboundTxQueue::new(clock);
    assert!(q.is_empty());
    q.push(mock_envelope(1), TxPriority::Low).unwrap();
    assert_eq!(q.len(), 1);
    assert!(!q.is_empty());
}

#[test]
fn test_priority_i64_roundtrip() {
    for p in [TxPriority::Low, TxPriority::Normal, TxPriority::Emergency] {
        let as_i64: i64 = p.into();
        assert_eq!(TxPriority::try_from(as_i64).unwrap(), p);
    }
}

#[test]
fn test_priority_from_invalid_i64_errors() {
    assert!(TxPriority::try_from(99).is_err());
}

#[test]
fn test_emergency_queuing_within_limit_succeeds() {
    let clock = Arc::new(MockClock::new(100));
    let config = EmergencyGuardConfig::new(3, Duration::from_secs(3600));
    let mut q = OutboundTxQueue::with_emergency_guard(config, clock);

    for i in 0..3 {
        q.push(mock_envelope(i), TxPriority::Emergency).unwrap();
    }
    assert_eq!(q.len(), 3);
}

#[test]
fn test_emergency_queuing_beyond_limit_is_rejected() {
    let clock = Arc::new(MockClock::new(100));
    let config = EmergencyGuardConfig::new(2, Duration::from_secs(3600));
    let mut q = OutboundTxQueue::with_emergency_guard(config, clock);

    q.push(mock_envelope(1), TxPriority::Emergency).unwrap();
    q.push(mock_envelope(2), TxPriority::Emergency).unwrap();

    let err = q
        .push(mock_envelope(3), TxPriority::Emergency)
        .expect_err("third Emergency push should exceed the configured limit of 2");
    assert!(matches!(
        err,
        SyncEngineError::EmergencyQueueLimitExceeded {
            current: 2,
            max: 2,
            ..
        }
    ));
    // The rejected push must not have been silently queued.
    assert_eq!(q.len(), 2);

    // Non-Emergency tiers are never gated by the Emergency guard.
    q.push(mock_envelope(4), TxPriority::Normal).unwrap();
    q.push(mock_envelope(5), TxPriority::Low).unwrap();
    assert_eq!(q.len(), 4);
}

#[test]
fn test_limit_is_configurable() {
    let clock = Arc::new(MockClock::new(100));
    let permissive = EmergencyGuardConfig::new(5, Duration::from_secs(60));
    let mut generous_q = OutboundTxQueue::with_emergency_guard(permissive, clock.clone());
    for i in 0..5 {
        generous_q
            .push(mock_envelope(i), TxPriority::Emergency)
            .unwrap();
    }
    assert!(generous_q
        .push(mock_envelope(200), TxPriority::Emergency)
        .is_err());

    let strict = EmergencyGuardConfig::new(1, Duration::from_secs(60));
    let mut strict_q = OutboundTxQueue::with_emergency_guard(strict, clock.clone());
    strict_q
        .push(mock_envelope(1), TxPriority::Emergency)
        .unwrap();
    assert!(strict_q
        .push(mock_envelope(2), TxPriority::Emergency)
        .is_err());

    // A queue with no guard configured never rejects.
    let mut unguarded_q = OutboundTxQueue::new(clock);
    for i in 0..10 {
        unguarded_q
            .push(mock_envelope(i), TxPriority::Emergency)
            .unwrap();
    }
}

#[test]
fn test_limit_resets_after_window_elapses() {
    let clock = Arc::new(MockClock::new(1000));
    let config = EmergencyGuardConfig::new(1, Duration::from_secs(60));
    let mut q = OutboundTxQueue::with_emergency_guard(config, clock.clone());

    // A single Emergency admission that is already outside the 60s window
    // as of "now", the way a wallet replays what it had stored.
    let now = clock.now_secs();
    q.restore_at(mock_envelope(1), TxPriority::Emergency, now - 61);

    // The window has elapsed for that entry, so a fresh push at the
    // configured limit of 1 must still be admitted.
    q.push(mock_envelope(2), TxPriority::Emergency).unwrap();

    // But now the window is full again, so a third one is rejected.
    assert!(q.push(mock_envelope(3), TxPriority::Emergency).is_err());
}

#[test]
fn test_limit_survives_restart() {
    let clock = Arc::new(MockClock::new(1000));
    let config = EmergencyGuardConfig::new(2, Duration::from_secs(3600));
    let now = clock.now_secs();

    // Before the restart: 2 Emergency payments, the most that are allowed.
    let mut before_restart = OutboundTxQueue::with_emergency_guard(config, clock.clone());
    before_restart
        .push_at(mock_envelope(1), TxPriority::Emergency, now)
        .unwrap();
    before_restart
        .push_at(mock_envelope(2), TxPriority::Emergency, now)
        .unwrap();
    let durably_persisted_emergency_timestamps = [now, now];

    // After it: a fresh queue, filled from what was stored.
    let mut after_restart = OutboundTxQueue::with_emergency_guard(config, clock.clone());
    for (i, &ts) in durably_persisted_emergency_timestamps.iter().enumerate() {
        after_restart.restore_at(mock_envelope(i as u8 + 1), TxPriority::Emergency, ts);
    }

    let err = after_restart
        .push(mock_envelope(3), TxPriority::Emergency)
        .expect_err("guard state must survive the simulated restart");
    assert!(matches!(
        err,
        SyncEngineError::EmergencyQueueLimitExceeded {
            current: 2,
            max: 2,
            ..
        }
    ));
}

trait AmbiguousIfSend<A> {
    fn marker() -> bool {
        true
    }
}
struct IsSend;
impl<T: ?Sized> AmbiguousIfSend<()> for T {}
impl<T: ?Sized + Send> AmbiguousIfSend<IsSend> for T {}

trait AmbiguousIfSync<A> {
    fn marker() -> bool {
        true
    }
}
struct IsSync;
impl<T: ?Sized> AmbiguousIfSync<()> for T {}
impl<T: ?Sized + Sync> AmbiguousIfSync<IsSync> for T {}

/// Compiles only because a queue is neither `Send` nor `Sync`: were it either,
/// two impls would fit one of the calls.
#[test]
fn test_outbound_tx_queue_is_not_send_or_sync() {
    assert!(<OutboundTxQueue<MockClock> as AmbiguousIfSend<_>>::marker());
    assert!(<OutboundTxQueue<MockClock> as AmbiguousIfSync<_>>::marker());
}

#[test]
fn priorities_have_their_stored_numbers() {
    assert_eq!(i64::from(TxPriority::Low), 0);
    assert_eq!(i64::from(TxPriority::Normal), 1);
    assert_eq!(i64::from(TxPriority::Emergency), 2);
    assert!(TxPriority::Low < TxPriority::Normal);
    assert!(TxPriority::Normal < TxPriority::Emergency);
}

#[test]
fn unknown_priority_numbers_are_named_in_the_error() {
    assert_eq!(
        TxPriority::try_from(99),
        Err(SyncEngineError::InvalidEnvelope(
            "unknown TxPriority discriminant 99".to_string()
        ))
    );
    assert_eq!(
        TxPriority::try_from(-1),
        Err(SyncEngineError::InvalidEnvelope(
            "unknown TxPriority discriminant -1".to_string()
        ))
    );
    assert_eq!(
        TxPriority::try_from(i64::MIN),
        Err(SyncEngineError::InvalidEnvelope(
            "unknown TxPriority discriminant -9223372036854775808".to_string()
        ))
    );
}

#[test]
fn equal_stamps_go_in_the_order_they_came() {
    let mut q = OutboundTxQueue::new(Arc::new(MockClock::new(7)));
    for i in 1..=6 {
        q.push(mock_envelope(i), TxPriority::Normal).unwrap();
    }
    for i in 1..=6 {
        assert_eq!(q.pop().unwrap().message_id, [i; 32]);
    }
}

#[test]
fn peek_shows_what_pop_takes() {
    let mut q = OutboundTxQueue::new(Arc::new(MockClock::new(7)));
    assert!(q.peek().is_none());
    q.push_at(mock_envelope(1), TxPriority::Low, 3).unwrap();
    q.push_at(mock_envelope(2), TxPriority::Emergency, 9).unwrap();
    assert_eq!(q.peek().unwrap().message_id, [2u8; 32]);
    assert_eq!(q.len(), 2);
    assert_eq!(q.pop().unwrap().message_id, [2u8; 32]);
    assert_eq!(q.peek().unwrap().message_id, [1u8; 32]);
}

#[test]
fn envelopes_come_out_as_they_went_in() {
    let mut q = OutboundTxQueue::new(Arc::new(MockClock::new(7)));
    q.push(mock_envelope(5), TxPriority::Low).unwrap();
    let out = q.pop().unwrap();
    assert_eq!(out.message_id, [5u8; 32]);
    assert_eq!(out.origin_pubkey, [1u8; 32]);
    assert_eq!(out.tx_xdr, "mock_xdr");
    assert_eq!(out.ttl_hops, 10);
    assert_eq!(out.timestamp, 1_700_000_000);
    assert_eq!(out.signature, [0u8; 64]);
}

#[test]
fn restored_entries_take_their_old_turn() {
    let mut q = OutboundTxQueue::new(Arc::new(MockClock::new(100)));
    q.push(mock_envelope(1), TxPriority::Normal).unwrap();
    q.restore_at(mock_envelope(2), TxPriority::Normal, 40);
    q.restore_at(mock_envelope(3), TxPriority::Low, 1);
    assert_eq!(q.pop().unwrap().message_id, [2u8; 32]);
    assert_eq!(q.pop().unwrap().message_id, [1u8; 32]);
    assert_eq!(q.pop().unwrap().message_id, [3u8; 32]);
}

#[test]
fn refusal_tells_the_count_the_limit_and_the_window() {
    let config = EmergencyGuardConfig::new(1, Duration::from_millis(90_999));
    let mut q = OutboundTxQueue::with_emergency_guard(config, Arc::new(MockClock::new(0)));
    q.push_at(mock_envelope(1), TxPriority::Emergency, 10).unwrap();
    assert_eq!(
        q.push_at(mock_envelope(2), TxPriority::Emergency, 99),
        Err(SyncEngineError::EmergencyQueueLimitExceeded {
            current: 1,
            max: 1,
            window_secs: 90,
        })
    );
    assert_eq!(q.len(), 1);
}

#[test]
fn a_payment_leaves_the_window_once_it_is_as_old_as_the_window() {
    let config = EmergencyGuardConfig::new(1, Duration::from_secs(60));
    let mut q = OutboundTxQueue::with_emergency_guard(config, Arc::new(MockClock::new(0)));
    q.push_at(mock_envelope(1), TxPriority::Emergency, 100).unwrap();
    assert!(q.push_at(mock_envelope(2), TxPriority::Emergency, 159).is_err());
    q.push_at(mock_envelope(3), TxPriority::Emergency, 160).unwrap();
    assert_eq!(q.len(), 2);
}

#[test]
fn popping_does_not_make_room_in_the_guard() {
    let config = EmergencyGuardConfig::new(1, Duration::from_secs(60));
    let mut q = OutboundTxQueue::with_emergency_guard(config, Arc::new(MockClock::new(5)));
    q.push(mock_envelope(1), TxPriority::Emergency).unwrap();
    assert!(q.pop().is_some());
    assert!(q.push(mock_envelope(2), TxPriority::Emergency).is_err());
}

#[test]
fn restoring_is_never_refused_but_counts() {
    let config = EmergencyGuardConfig::new(2, Duration::from_secs(60));
    let mut q = OutboundTxQueue::with_emergency_guard(config, Arc::new(MockClock::new(50)));
    for i in 0..3 {
        q.restore_at(mock_envelope(i), TxPriority::Emergency, 40);
    }
    q.restore_at(mock_envelope(9), TxPriority::Low, 40);
    assert_eq!(q.len(), 4);
    assert_eq!(
        q.push(mock_envelope(4), TxPriority::Emergency),
        Err(SyncEngineError::EmergencyQueueLimitExceeded {
            current: 3,
            max: 2,
            window_secs: 60,
        })
    );
}

#[test]
fn a_limit_of_zero_refuses_every_emergency_payment() {
    let config = EmergencyGuardConfig::new(0, Duration::from_secs(60));
    let mut q = OutboundTxQueue::with_emergency_guard(config, Arc::new(MockClock::new(5)));
    assert!(q.push(mock_envelope(1), TxPriority::Emergency).is_err());
    q.push(mock_envelope(2), TxPriority::Normal).unwrap();
    assert_eq!(q.len(), 1);
}

#[test]
fn a_window_of_zero_never_fills() {
    let config = EmergencyGuardConfig::new(1, Duration::from_secs(0));
    let mut q = OutboundTxQueue::with_emergency_guard(config, Arc::new(MockClock::new(5)));
    for i in 0..4 {
        q.push(mock_envelope(i), TxPriority::Emergency).unwrap();
    }
    assert_eq!(q.len(), 4);
}

#[test]
fn a_window_below_a_second_still_limits() {
    for millis in [1u64, 500, 999] {
        let config = EmergencyGuardConfig::new(1, Duration::from_millis(millis));
        let mut q = OutboundTxQueue::with_emergency_guard(config, Arc::new(MockClock::new(10)));
        q.push(mock_envelope(1), TxPriority::Emergency).unwrap();
        assert_eq!(
            q.push(mock_envelope(2), TxPriority::Emergency),
            Err(SyncEngineError::EmergencyQueueLimitExceeded {
                current: 1,
                max: 1,
                window_secs: 0,
            })
        );
        q.push_at(mock_envelope(3), TxPriority::Emergency, 11).unwrap();
    }
}

#[test]
fn the_fraction_of_a_window_counts() {
    let config = EmergencyGuardConfig::new(1, Duration::from_millis(60_001));
    let mut q = OutboundTxQueue::with_emergency_guard(config, Arc::new(MockClock::new(0)));
    q.push_at(mock_envelope(1), TxPriority::Emergency, 100).unwrap();
    assert!(q.push_at(mock_envelope(2), TxPriority::Emergency, 160).is_err());
    q.push_at(mock_envelope(3), TxPriority::Emergency, 161).unwrap();

    let longest = EmergencyGuardConfig::new(1, Duration::MAX);
    let mut q = OutboundTxQueue::with_emergency_guard(longest, Arc::new(MockClock::new(0)));
    q.push(mock_envelope(1), TxPriority::Emergency).unwrap();
    assert_eq!(
        q.push_at(mock_envelope(2), TxPriority::Emergency, u64::MAX),
        Err(SyncEngineError::EmergencyQueueLimitExceeded {
            current: 1,
            max: 1,
            window_secs: u64::MAX,
        })
    );
}

#[test]
fn no_window_holds_more_than_the_limit() {
    let config = EmergencyGuardConfig::new(3, Duration::from_secs(10));
    let mut q = OutboundTxQueue::with_emergency_guard(config, Arc::new(MockClock::new(0)));
    let mut admitted: Vec<u64> = Vec::new();
    for at in [0u64, 1, 2, 3, 9, 10, 10, 11, 12, 13, 19, 20, 21, 40, 41, 42, 43] {
        if q.push_at(mock_envelope(1), TxPriority::Emergency, at).is_ok() {
            admitted.push(at);
        }
    }
    assert_eq!(admitted, [0, 1, 2, 10, 11, 12, 20, 21, 40, 41, 42]);
    for end in 0u64..60 {
        let inside = admitted.iter().filter(|&&r| r <= end && end - r < 10).count();
        assert!(inside <= 3, "window ending at {end} holds {inside}");
    }
}

#[test]
fn an_old_payment_leaves_the_record_wherever_it_stands() {
    let config = EmergencyGuardConfig::new(2, Duration::from_secs(60));
    let mut q = OutboundTxQueue::with_emergency_guard(config, Arc::new(MockClock::new(1000)));
    q.restore_at(mock_envelope(1), TxPriority::Emergency, 1000);
    q.restore_at(mock_envelope(2), TxPriority::Emergency, 900);
    q.push(mock_envelope(3), TxPriority::Emergency).unwrap();
    assert_eq!(
        q.push(mock_envelope(4), TxPriority::Emergency),
        Err(SyncEngineError::EmergencyQueueLimitExceeded {
            current: 2,
            max: 2,
            window_secs: 60,
        })
    );
}

#[test]
fn replaying_what_was_accepted_gives_the_same_answers() {
    let config = EmergencyGuardConfig::new(2, Duration::from_secs(30));
    let clock = Arc::new(MockClock::new(0));
    let mut before = OutboundTxQueue::with_emergency_guard(config, clock.clone());
    let mut log: Vec<(TxPriority, u64)> = Vec::new();
    let pushes = [
        (TxPriority::Emergency, 5u64),
        (TxPriority::Low, 6),
        (TxPriority::Emergency, 10),
        (TxPriority::Emergency, 12),
        (TxPriority::Emergency, 36),
        (TxPriority::Normal, 36),
    ];
    for (priority, at) in pushes {
        if before.push_at(mock_envelope(1), priority, at).is_ok() {
            log.push((priority, at));
        }
        before.pop();
    }
    assert_eq!(log.len(), 5);
    for at in 36u64..80 {
        let mut after = OutboundTxQueue::with_emergency_guard(config, clock.clone());
        for &(priority, stamp) in &log {
            after.restore_at(mock_envelope(1), priority, stamp);
        }
        let expected = at >= 40;
        assert_eq!(
            after.push_at(mock_envelope(2), TxPriority::Emergency, at).is_ok(),
            expected
        );
    }
    assert!(before.push_at(mock_envelope(2), TxPriority::Emergency, 39).is_err());
    assert!(before.push_at(mock_envelope(2), TxPriority::Emergency, 40).is_ok());
}

#[test]
fn nothing_is_lost_or_handed_out_twice() {
    let mut q = OutboundTxQueue::new(Arc::new(MockClock::new(0)));
    let tiers = [TxPriority::Normal, TxPriority::Low, TxPriority::Emergency];
    let mut out: Vec<u8> = Vec::new();
    for i in 0..30u8 {
        q.push_at(mock_envelope(i), tiers[i as usize % 3], u64::from(i * 7 % 11))
            .unwrap();
        if i % 4 == 3 {
            out.push(q.pop().unwrap().message_id[0]);
        }
    }
    assert_eq!(q.len() + out.len(), 30);
    while let Some(envelope) = q.pop() {
        out.push(envelope.message_id[0]);
    }
    out.sort_unstable();
    assert_eq!(out, (0..30).collect::<Vec<u8>>());
}

#[derive(Default)]
struct NoonClock;

impl Clock for NoonClock {
    fn now_secs(&self) -> u64 {
        43_200
    }
}

#[test]
fn the_default_queue_is_empty_and_unguarded() {
    let mut q: OutboundTxQueue<NoonClock> = OutboundTxQueue::default();
    assert!(q.is_empty());
    for i in 0..5 {
        q.push(mock_envelope(i), TxPriority::Emergency).unwrap();
    }
    q.push_at(mock_envelope(9), TxPriority::Emergency, 43_199).unwrap();
    assert_eq!(q.pop().unwrap().message_id, [9u8; 32]);
    assert_eq!(q.len(), 5);
}

#[test]
fn a_queue_takes_a_clock_behind_a_trait_object() {
    let clock: Arc<dyn Clock> = Arc::new(NoonClock);
    let mut q = OutboundTxQueue::new(clock);
    q.push(mock_envelope(1), TxPriority::Low).unwrap();
    q.push_at(mock_envelope(2), TxPriority::Low, 43_199).unwrap();
    assert_eq!(q.pop().unwrap().message_id, [2u8; 32]);
}
