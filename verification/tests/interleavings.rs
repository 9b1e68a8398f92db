use std::time::Duration;

use loom::sync::{Arc, Mutex};

use stellarconduit_sync_engine::clock::MockClock;
use stellarconduit_sync_engine::message::TransactionEnvelope;
use stellarconduit_sync_engine::queue::{
    EmergencyGuardConfig, OutboundTxQueue, SequenceReservationManager, TxPriority,
};

fn still_clock() -> std::sync::Arc<MockClock> {
    std::sync::Arc::new(MockClock::new(0))
}

fn loom_envelope(id: u8) -> TransactionEnvelope {
    TransactionEnvelope {
        message_id: [id; 32],
        origin_pubkey: [1u8; 32],
        tx_xdr: "mock_xdr".to_string(),
        ttl_hops: 10,
        timestamp: 1_700_000_000,
        signature: [0u8; 64],
    }
}

#[test]
fn loom_test_concurrent_push_pop_never_loses_or_duplicates_entry() {
    loom::model(|| {
        let queue = Arc::new(Mutex::new(OutboundTxQueue::new(still_clock())));

        // Thread A: push envelope 0xAA at Normal priority.
        let q_a = Arc::clone(&queue);
        let thread_a = loom::thread::spawn(move || {
            q_a.lock()
                .unwrap()
                .push_at(loom_envelope(0xAA), TxPriority::Normal, 100)
                .expect("push must not fail for Normal priority");
        });

        // Thread B: push envelope 0xBB at Normal priority.
        let q_b = Arc::clone(&queue);
        let thread_b = loom::thread::spawn(move || {
            q_b.lock()
                .unwrap()
                .push_at(loom_envelope(0xBB), TxPriority::Normal, 200)
                .expect("push must not fail for Normal priority");
        });

        thread_a.join().unwrap();
        thread_b.join().unwrap();

        // After both pushes completed, the queue must contain exactly 2
        // items. We pop both and check for distinctness.
        let mut q = queue.lock().unwrap();
        assert_eq!(q.len(), 2, "both pushed envelopes must be present");

        let first = q.pop().expect("first pop must return an envelope");
        let second = q.pop().expect("second pop must return an envelope");
        assert!(q.pop().is_none(), "queue must be empty after two pops");

        // The two pops must return distinct envelopes.
        assert_ne!(
            first.message_id, second.message_id,
            "each pop must return a distinct envelope"
        );

        // The returned IDs must be exactly the two we pushed.
        let mut ids = [first.message_id[0], second.message_id[0]];
        ids.sort_unstable();
        assert_eq!(
            ids,
            [0xAA, 0xBB],
            "the two pops must return exactly the two pushed envelopes"
        );
    });
}

#[test]
fn loom_test_concurrent_push_pop_interleaved_never_loses_entry() {
    loom::model(|| {
        // Pre-populate with one envelope so both threads have something
        // to pop immediately, making the push/pop interleaving denser.
        let mut initial = OutboundTxQueue::new(still_clock());
        initial
            .push_at(loom_envelope(0x01), TxPriority::Normal, 50)
            .unwrap();
        let queue = Arc::new(Mutex::new(initial));

        // Thread A: push one envelope, then pop one.
        let q_a = Arc::clone(&queue);
        let thread_a = loom::thread::spawn(move || {
            q_a.lock()
                .unwrap()
                .push_at(loom_envelope(0xAA), TxPriority::Normal, 100)
                .unwrap();
            q_a.lock().unwrap().pop()
        });

        // Thread B: push one envelope, then pop one.
        let q_b = Arc::clone(&queue);
        let thread_b = loom::thread::spawn(move || {
            q_b.lock()
                .unwrap()
                .push_at(loom_envelope(0xBB), TxPriority::Normal, 200)
                .unwrap();
            q_b.lock().unwrap().pop()
        });

        let popped_a = thread_a.join().unwrap();
        let popped_b = thread_b.join().unwrap();

        // Total items in the system: started with 1, each thread pushed
        // 1, so 3 total. Each thread popped at most 1. Items not popped
        // by the threads are still in the queue.
        let remaining = queue.lock().unwrap().len();
        let popped_count = popped_a.is_some() as usize + popped_b.is_some() as usize;

        assert_eq!(
            popped_count + remaining,
            3,
            "total items in system must always be conserved: \
             3 pushed, {} popped, {} remaining",
            popped_count,
            remaining
        );

        // No two pops may return the same envelope.
        if let (Some(a), Some(b)) = (popped_a, popped_b) {
            assert_ne!(
                a.message_id, b.message_id,
                "concurrent pops must not return the same envelope"
            );
        }
    });
}

#[test]
fn loom_test_concurrent_emergency_guard_never_exceeds_limit() {
    loom::model(|| {
        // Guard allows at most 2 Emergency entries in a 1-hour window.
        let config = EmergencyGuardConfig::new(2, Duration::from_secs(3600));
        let queue = Arc::new(Mutex::new(OutboundTxQueue::with_emergency_guard(config, still_clock())));

        let q_a = Arc::clone(&queue);
        let thread_a = loom::thread::spawn(move || {
            q_a.lock()
                .unwrap()
                .push_at(loom_envelope(0xAA), TxPriority::Emergency, 1000)
        });

        let q_b = Arc::clone(&queue);
        let thread_b = loom::thread::spawn(move || {
            q_b.lock()
                .unwrap()
                .push_at(loom_envelope(0xBB), TxPriority::Emergency, 1001)
        });

        let result_a = thread_a.join().unwrap();
        let result_b = thread_b.join().unwrap();

        let q = queue.lock().unwrap();
        let emergency_count = q.len(); // both are Emergency, so this is the Emergency count

        // Both succeeded: the guard limit of 2 was not exceeded.
        let both_succeeded = result_a.is_ok() && result_b.is_ok();
        // One failed: the guard rejected one of them. Queue should have 1.
        let one_failed = result_a.is_err() || result_b.is_err();

        // Since max_count == 2 and we pushed exactly 2 Emergency entries,
        // both must have been admitted (the limit is not exceeded until
        // the 3rd attempt). In all interleavings of two pushes under a
        // correctly-held mutex, both must succeed.
        assert!(
            both_succeeded,
            "both Emergency pushes must succeed when limit is 2 and only 2 are pushed \
             (result_a={:?}, result_b={:?})",
            result_a, result_b
        );
        assert!(!one_failed);
        assert_eq!(
            emergency_count, 2,
            "queue must contain exactly 2 Emergency entries"
        );
    });
}

#[test]
fn loom_test_concurrent_emergency_guard_over_limit_rejects_excess() {
    loom::model(|| {
        let config = EmergencyGuardConfig::new(2, Duration::from_secs(3600));
        let queue = Arc::new(Mutex::new(OutboundTxQueue::with_emergency_guard(config, still_clock())));

        // Thread A tries to push 2 Emergency entries.
        let q_a = Arc::clone(&queue);
        let thread_a = loom::thread::spawn(move || {
            let r1 =
                q_a.lock()
                    .unwrap()
                    .push_at(loom_envelope(0xA1), TxPriority::Emergency, 1000);
            let r2 =
                q_a.lock()
                    .unwrap()
                    .push_at(loom_envelope(0xA2), TxPriority::Emergency, 1001);
            (r1.is_ok(), r2.is_ok())
        });

        // Thread B tries to push 2 Emergency entries.
        let q_b = Arc::clone(&queue);
        let thread_b = loom::thread::spawn(move || {
            let r1 =
                q_b.lock()
                    .unwrap()
                    .push_at(loom_envelope(0xB1), TxPriority::Emergency, 1002);
            let r2 =
                q_b.lock()
                    .unwrap()
                    .push_at(loom_envelope(0xB2), TxPriority::Emergency, 1003);
            (r1.is_ok(), r2.is_ok())
        });

        let (a1_ok, a2_ok) = thread_a.join().unwrap();
        let (b1_ok, b2_ok) = thread_b.join().unwrap();

        let admitted_count = [a1_ok, a2_ok, b1_ok, b2_ok]
            .iter()
            .filter(|&&ok| ok)
            .count();

        let q = queue.lock().unwrap();
        // The queue length equals admitted Emergency entries (all are Emergency).
        assert_eq!(
            q.len(),
            admitted_count,
            "queue length must equal the number of admitted pushes"
        );

        // The guard must never admit more than max_count=2 entries,
        // regardless of interleaving.
        assert!(
            admitted_count <= 2,
            "Emergency guard must never admit more than max_count=2 entries; \
             admitted {admitted_count}"
        );
    });
}

#[test]
fn loom_test_concurrent_reserve_next_never_double_issues_sequence() {
    loom::model(|| {
        let mgr = Arc::new(Mutex::new(SequenceReservationManager::new()));
        mgr.lock().unwrap().seed("GABC", 100);

        // Thread A: reserve one sequence number.
        let mgr_a = Arc::clone(&mgr);
        let thread_a = loom::thread::spawn(move || {
            mgr_a
                .lock()
                .unwrap()
                .reserve_next("GABC")
                .expect("reserve_next must not fail after seed")
        });

        // Thread B: reserve one sequence number.
        let mgr_b = Arc::clone(&mgr);
        let thread_b = loom::thread::spawn(move || {
            mgr_b
                .lock()
                .unwrap()
                .reserve_next("GABC")
                .expect("reserve_next must not fail after seed")
        });

        let seq_a = thread_a.join().unwrap();
        let seq_b = thread_b.join().unwrap();

        // The two sequence numbers must be distinct — a duplicate would
        // mean two envelopes were signed against the same slot.
        assert_ne!(
            seq_a, seq_b,
            "concurrent reserve_next must never return the same sequence number \
             (seq_a={seq_a}, seq_b={seq_b}) — that would be a double-spend"
        );

        // They must be consecutive: {101, 102} in some order.
        let mut seqs = [seq_a, seq_b];
        seqs.sort_unstable();
        assert_eq!(
            seqs,
            [101, 102],
            "two reserve_next calls from baseline=100 must yield exactly \
             {{101, 102}}, got {seqs:?}"
        );

        // The manager's last_reserved must reflect both reservations.
        let last = mgr.lock().unwrap().last_reserved("GABC").unwrap();
        assert_eq!(
            last, 102,
            "last_reserved must be 102 after two successful reserve_next calls"
        );
    });
}

#[test]
fn loom_test_three_concurrent_reserves_are_all_distinct() {
    loom::model(|| {
        let mgr = Arc::new(Mutex::new(SequenceReservationManager::new()));
        mgr.lock().unwrap().seed("GABC", 100);

        let make_thread = |m: Arc<Mutex<SequenceReservationManager>>| {
            loom::thread::spawn(move || {
                m.lock()
                    .unwrap()
                    .reserve_next("GABC")
                    .expect("reserve_next must not fail after seed")
            })
        };

        let t1 = make_thread(Arc::clone(&mgr));
        let t2 = make_thread(Arc::clone(&mgr));
        let t3 = make_thread(Arc::clone(&mgr));

        let s1 = t1.join().unwrap();
        let s2 = t2.join().unwrap();
        let s3 = t3.join().unwrap();

        let mut seqs = [s1, s2, s3];
        seqs.sort_unstable();

        assert_eq!(
            seqs,
            [101, 102, 103],
            "three reserve_next calls from baseline=100 must yield exactly \
             {{101, 102, 103}}, got {seqs:?}"
        );
    });
}

#[test]
fn loom_test_concurrent_reserve_and_release_no_duplicate_sequences() {
    loom::model(|| {
        let mgr = Arc::new(Mutex::new(SequenceReservationManager::new()));
        mgr.lock().unwrap().seed("GABC", 100);

        // Thread A: reserve then immediately release.
        let mgr_a = Arc::clone(&mgr);
        let thread_a = loom::thread::spawn(move || -> Option<i64> {
            let seq = {
                let mut m = mgr_a.lock().unwrap();
                m.reserve_next("GABC")
                    .expect("reserve_next must not fail after seed")
            };
            // Attempt release. This may fail with SequenceOutOfOrder if
            // Thread B reserved between our reserve and our release — that
            // is correct and expected behavior.
            let released = mgr_a.lock().unwrap().release("GABC", seq).is_ok();
            if released {
                None // A's reservation was rolled back; it holds no sequence.
            } else {
                Some(seq) // A holds this sequence despite failing to release.
            }
        });

        // Thread B: reserve one sequence number.
        let mgr_b = Arc::clone(&mgr);
        let thread_b = loom::thread::spawn(move || {
            mgr_b
                .lock()
                .unwrap()
                .reserve_next("GABC")
                .expect("reserve_next must not fail after seed")
        });

        let seq_a_opt = thread_a.join().unwrap();
        let seq_b = thread_b.join().unwrap();

        // If A successfully released its reservation, A holds no sequence
        // and B's is the only live one — no overlap possible.
        if let Some(seq_a) = seq_a_opt {
            // A holds a sequence (release failed), B holds a different one.
            assert_ne!(
                seq_a, seq_b,
                "A and B must not hold the same sequence number \
                 (seq_a={seq_a}, seq_b={seq_b})"
            );
        }
        // In all cases, B's sequence is valid (> baseline).
        assert!(
            seq_b > 100,
            "B's sequence must be greater than baseline=100, got {seq_b}"
        );
    });
}

#[test]
fn loom_test_concurrent_reconcile_and_reserve_no_duplicate_sequences() {
    loom::model(|| {
        let mgr = Arc::new(Mutex::new(SequenceReservationManager::new()));
        // Baseline=100, and we pre-reserve 101 to simulate an in-flight
        // transaction. The chain then advances to 101 (reconcile).
        {
            let mut m = mgr.lock().unwrap();
            m.seed("GABC", 100);
            m.reserve_next("GABC").unwrap(); // pre-reserve 101
        }

        // Thread A: reconcile (chain advanced to 101).
        let mgr_a = Arc::clone(&mgr);
        let thread_a =
            loom::thread::spawn(move || mgr_a.lock().unwrap().reconcile("GABC", 101));

        // Thread B: reserve the next sequence number.
        let mgr_b = Arc::clone(&mgr);
        let thread_b = loom::thread::spawn(move || {
            mgr_b
                .lock()
                .unwrap()
                .reserve_next("GABC")
                .expect("reserve_next must not fail after seed")
        });

        let _outcome = thread_a.join().unwrap();
        let seq_b = thread_b.join().unwrap();

        // Regardless of whether reconcile ran before or after B's
        // reserve, B's sequence must be > 100 (the first baseline).
        // The exact value depends on the ordering:
        //   - If reconcile ran first: last_reserved was set to 101,
        //     so B gets 102.
        //   - If B's reserve ran first: B gets 102 (pre-reserved=101,
        //     next=102), and reconcile then sees last_reserved=102,
        //     which equals observed=101 < reserved, so it does not
        //     overwrite reserved — B's 102 stands.
        // In both orderings, B's sequence is > 100.
        assert!(
            seq_b > 100,
            "B's sequence must be > baseline=100 regardless of reconcile ordering, \
             got {seq_b}"
        );

        // And the final last_reserved must be >= seq_b.
        let last = mgr.lock().unwrap().last_reserved("GABC").unwrap();
        assert!(
            last >= seq_b,
            "last_reserved ({last}) must be >= B's reserved sequence ({seq_b})"
        );
    });
}
