use encrypted_conn::cleanup::{CleanupEvent, CleanupStep, SessionCleanup, CLEANUP_INTERVAL_SECS};
use encrypted_conn::sessions::{SessionEntry, SessionSnapshot};
use encrypted_conn::EncryptedPacketConn;

#[test]
fn cleanup_skips_the_first_tick() {
    assert_eq!(CLEANUP_INTERVAL_SECS, 30);
    let mut cleanup = SessionCleanup::new();
    assert_eq!(cleanup.step(CleanupEvent::Started), CleanupStep::AwaitFirstTick);
    assert_eq!(cleanup.step(CleanupEvent::Tick), CleanupStep::AwaitTick);
    for _ in 0..3 {
        assert_eq!(cleanup.step(CleanupEvent::Tick), CleanupStep::CleanupExpired);
        assert_eq!(cleanup.step(CleanupEvent::CleanedUp), CleanupStep::AwaitTick);
    }
    assert_eq!(cleanup.step(CleanupEvent::Cancelled), CleanupStep::Stop);
}

fn session(first: u8, last: u8, tx: u64) -> SessionSnapshot {
    let mut key = [0x55u8; 32];
    key[0] = first;
    key[31] = last;
    SessionSnapshot { key, tx, rx: tx + 1, since_nanos: 1_000 }
}

#[test]
fn sessions_are_listed_with_uptime() {
    let mut late = session(1, 1, 4);
    late.since_nanos = 9_000;
    let listing = EncryptedPacketConn::get_sessions(&vec![session(2, 0, 8), late], 5_000);
    assert_eq!(
        listing,
        vec![
            SessionEntry { key: late.key, uptime_nanos: 0, bytes_sent: 4, bytes_recvd: 5 },
            SessionEntry { key: session(2, 0, 8).key, uptime_nanos: 4_000, bytes_sent: 8, bytes_recvd: 9 },
        ]
    );
    assert_eq!(EncryptedPacketConn::get_sessions(&vec![], 5_000), vec![]);
}

#[test]
fn sessions_are_ordered_by_the_first_byte_that_differs() {
    let snapshot = vec![session(2, 1, 0), session(1, 255, 1), session(255, 0, 2), session(1, 3, 3)];
    let listing = EncryptedPacketConn::get_sessions(&snapshot, 0);
    let order: Vec<u64> = listing.iter().map(|e| e.bytes_sent).collect();
    assert_eq!(order, vec![3, 1, 0, 2]);
}

#[test]
fn listing_ignores_snapshot_order() {
    let mut snapshot: Vec<SessionSnapshot> =
        (0..100u64).map(|n| session((n * 37 % 101) as u8, (n * 11) as u8, n)).collect();
    let listing = EncryptedPacketConn::get_sessions(&snapshot, 7_777);
    assert_eq!(listing.len(), 100);
    assert!(listing.windows(2).all(|w| w[0].key < w[1].key));
    snapshot.reverse();
    assert_eq!(EncryptedPacketConn::get_sessions(&snapshot, 7_777), listing);
    snapshot.rotate_left(33);
    assert_eq!(EncryptedPacketConn::get_sessions(&snapshot, 7_777), listing);
}

#[test]
fn entries_of_one_key_keep_their_order() {
    let snapshot = vec![
        session(3, 0, 1),
        session(1, 0, 2),
        session(3, 0, 3),
        session(1, 0, 4),
        session(3, 0, 5),
    ];
    let listing = EncryptedPacketConn::get_sessions(&snapshot, 0);
    let order: Vec<u64> = listing.iter().map(|e| e.bytes_sent).collect();
    assert_eq!(order, vec![2, 4, 1, 3, 5]);
}
