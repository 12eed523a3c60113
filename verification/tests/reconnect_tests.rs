//! The disconnect flag of a session, which a reconnect clears.

use micro_xrce_dds_rs::{rt::inner::SessionState, Error};

#[test]
fn is_disconnected_starts_false() {
    let s = SessionState::new();
    assert!(!s.is_disconnected());
    assert_eq!(s.require_connected(), Ok(()));
}

#[test]
fn clear_disconnected_resets_flag() {
    let mut s = SessionState::new();
    s.set_disconnected();
    assert!(s.is_disconnected());
    assert_eq!(s.require_connected(), Err(Error::Disconnected));
    s.clear_disconnected();
    assert!(!s.is_disconnected());
}
