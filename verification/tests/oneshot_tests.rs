use std::time::Duration;

use nanokit::{channel, RecvError, RecvTimeoutError, SendError};

#[test]
fn oneshot() {
    let (s, r) = channel();
    s.send(128).expect("send");
    assert_eq!(r.recv().expect("recv"), 128);
}

#[test]
fn oneshot_send_drop_receiver() {
    let (s, r) = channel();
    drop(r);
    assert!(s.is_disconnected());
    assert_eq!(s.send(128).unwrap_err(), SendError::Disconnected(128));
}

#[test]
fn oneshot_recv_drop_sender() {
    let (s, r) = channel::<i32>();
    drop(s);
    assert!(r.is_disconnected());
    assert_eq!(r.recv().unwrap_err(), RecvError::Disconnected);
}

#[test]
fn oneshot_recv_timeout_drop_sender() {
    let (s, r) = channel::<i32>();
    drop(s);
    assert!(r.is_disconnected());
    assert_eq!(
        r.recv_timeout(Duration::from_secs(1)).unwrap_err(),
        RecvTimeoutError::Disconnected
    );
}

#[test]
fn oneshot_not_disconnected_while_both_live() {
    let (s, r) = channel::<i32>();
    assert!(!s.is_disconnected());
    assert!(!r.is_disconnected());
}

#[test]
fn oneshot_timeout_consumes_receiver() {
    let (s, r) = channel::<i32>();
    assert_eq!(
        r.recv_timeout(Duration::from_millis(1)).unwrap_err(),
        RecvTimeoutError::TimedOut
    );
    // The timed-out call consumed the receiver, so the still-live sender
    // now observes a disconnect and gets its value back.
    assert!(s.is_disconnected());
    assert_eq!(s.send(128).unwrap_err(), SendError::Disconnected(128));
}

#[test]
fn oneshot_send_error_into_inner() {
    let err = SendError::Disconnected(42);
    assert_eq!(err.into_inner(), 42);
}

#[test]
fn oneshot_send_then_recv_timeout() {
    let (s, r) = channel();
    s.send("hello").expect("send");
    assert_eq!(r.recv_timeout(Duration::from_secs(1)).expect("recv"), "hello");
}

#[test]
fn oneshot_peer_gone_threshold() {
    // The disconnect decision both handles draw their answer from: a count
    // of one (or, defensively, zero) means this side is alone.
    assert!(nanokit::oneshot::peer_gone(0));
    assert!(nanokit::oneshot::peer_gone(1));
    assert!(!nanokit::oneshot::peer_gone(2));
}
