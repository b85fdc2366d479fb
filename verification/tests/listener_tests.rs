use hopper_core::client_listener::ClientListenerError;

#[test]
fn client_listener_errors_know_their_own_fatality() {
    assert_eq!(ClientListenerError::Closed.is_fatal(), true);
    assert_eq!(ClientListenerError::Broken.is_fatal(), true);
    assert_eq!(ClientListenerError::UnexpectedPacket.is_fatal(), false);
}
