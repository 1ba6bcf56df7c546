use ed25519_dalek::SigningKey;
use encrypted_conn::close::{CloseEvent, CloseStep};
use encrypted_conn::read::ReadStep;
use encrypted_conn::write::WriteStep;
use encrypted_conn::{Addr, EncryptedPacketConn, Error, ReadPath};
use rand::rngs::OsRng;

const OVERHEAD: u64 = 100;

fn open_conn(path: ReadPath) -> EncryptedPacketConn {
    EncryptedPacketConn::new(SigningKey::generate(&mut OsRng), OVERHEAD, path)
}

fn close_fully(conn: &mut EncryptedPacketConn, answer: Result<(), String>) -> Result<(), Error<String>> {
    let mut answer = Some(answer);
    let mut step: CloseStep<String> = conn.close();
    loop {
        step = match step {
            CloseStep::CancelTasks => CloseStep::after(CloseEvent::TasksCancelled),
            CloseStep::JoinReader => CloseStep::after(CloseEvent::ReaderJoined),
            CloseStep::JoinCleanup => CloseStep::after(CloseEvent::CleanupJoined),
            CloseStep::CloseInner => CloseStep::after(CloseEvent::InnerClosed(answer.take().unwrap())),
            CloseStep::Done(result) => return result,
        };
    }
}

#[test]
fn encrypted_create_and_close() {
    let key = SigningKey::generate(&mut OsRng);
    let mut conn = EncryptedPacketConn::new(key, OVERHEAD, ReadPath::BufferOnly);
    assert!(!conn.is_closed());
    close_fully(&mut conn, Ok(())).unwrap();
    assert!(conn.is_closed());
}

#[test]
fn encrypted_mtu_accounts_for_overhead() {
    let key = SigningKey::generate(&mut OsRng);
    let conn = EncryptedPacketConn::new(key, OVERHEAD, ReadPath::BufferOnly);
    let inner_mtu: u64 = 65535;
    let encrypted_mtu = conn.mtu(inner_mtu);
    assert!(encrypted_mtu < inner_mtu);
    assert_eq!(encrypted_mtu, inner_mtu - OVERHEAD);
}

#[test]
fn mtu_saturates_at_zero() {
    let conn = open_conn(ReadPath::Inline);
    assert_eq!(conn.mtu(OVERHEAD), 0);
    assert_eq!(conn.mtu(OVERHEAD - 1), 0);
    assert_eq!(conn.mtu(0), 0);
    assert_eq!(conn.mtu(OVERHEAD + 1), 1);
    assert_eq!(conn.mtu(u64::MAX), u64::MAX - OVERHEAD);
}

#[test]
fn keeps_key_and_read_path() {
    let key = SigningKey::from_bytes(&[7u8; 32]);
    let conn = EncryptedPacketConn::new(key.clone(), OVERHEAD, ReadPath::Inline);
    assert_eq!(conn.private_key().to_bytes(), key.to_bytes());
    assert_eq!(conn.private_key().to_bytes(), [7u8; 32]);
    assert_eq!(conn.read_path(), ReadPath::Inline);
    assert_eq!(open_conn(ReadPath::BufferOnly).read_path(), ReadPath::BufferOnly);
}

#[test]
fn closes_in_order() {
    let mut conn = open_conn(ReadPath::BufferOnly);
    assert_eq!(conn.close::<String>(), CloseStep::CancelTasks);
    assert!(conn.is_closed());
    assert_eq!(CloseStep::<String>::after(CloseEvent::TasksCancelled), CloseStep::JoinReader);
    assert_eq!(CloseStep::<String>::after(CloseEvent::ReaderJoined), CloseStep::JoinCleanup);
    assert_eq!(CloseStep::<String>::after(CloseEvent::CleanupJoined), CloseStep::CloseInner);
    assert_eq!(
        CloseStep::<String>::after(CloseEvent::InnerClosed(Ok(()))),
        CloseStep::Done(Ok(()))
    );
}

#[test]
fn close_returns_inner_error() {
    let mut conn = open_conn(ReadPath::BufferOnly);
    let result = close_fully(&mut conn, Err("inner".to_string()));
    assert_eq!(result, Err(Error::Inner("inner".to_string())));
    assert!(conn.is_closed());
}

#[test]
fn second_close_is_refused() {
    let mut conn = open_conn(ReadPath::Inline);
    assert_eq!(conn.close::<String>(), CloseStep::CancelTasks);
    // The first call has only begun.
    assert_eq!(conn.close::<String>(), CloseStep::Done(Err(Error::Closed)));
    assert_eq!(close_fully(&mut conn, Ok(())), Err(Error::Closed));
}

#[test]
fn closed_conn_refuses_reads_and_writes() {
    let mut conn = open_conn(ReadPath::Inline);
    close_fully(&mut conn, Ok(())).unwrap();
    let mut buf = [9u8; 4];
    let (_, step) = conn.read_from::<String>(&mut buf);
    assert_eq!(step, ReadStep::Done(Err(Error::Closed)));
    assert_eq!(buf, [9u8; 4]);
    let (_, step) = conn.write_to::<String>(vec![1, 2, 3], &Addr([1u8; 32]), 65535);
    assert_eq!(step, WriteStep::Done(Err(Error::Closed)));
    // Closed comes before oversized.
    let (_, step) = conn.write_to::<String>(vec![0u8; 1000], &Addr([1u8; 32]), 0);
    assert_eq!(step, WriteStep::Done(Err(Error::Closed)));
}
