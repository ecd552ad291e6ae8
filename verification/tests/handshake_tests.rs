use redis_lite::servers::replication::{handshake_init, handshake_step, HandshakeState};

#[test]
fn handshake_starts_with_ping() {
    let (cmd, state) = handshake_init();
    assert_eq!(cmd, "*1\r\n$4\r\nPING\r\n");
    assert_eq!(state, HandshakeState::PingSent);
}

#[test]
fn handshake_walks_all_four_steps() {
    let (_, state) = handshake_init();
    let (cmd, state) = handshake_step(state, "+PONG\r\n", 6380);
    assert_eq!(
        cmd.as_deref(),
        Some("*3\r\n$8\r\nREPLCONF\r\n$14\r\nlistening-port\r\n$4\r\n6380\r\n")
    );
    assert_eq!(state, HandshakeState::PortSent);
    let (cmd, state) = handshake_step(state, "+OK\r\n", 6380);
    assert_eq!(cmd.as_deref(), Some("*3\r\n$8\r\nREPLCONF\r\n$4\r\ncapa\r\n$6\r\npsync2\r\n"));
    assert_eq!(state, HandshakeState::CapaSent);
    let (cmd, state) = handshake_step(state, "+OK\r\n", 6380);
    assert_eq!(cmd.as_deref(), Some("*3\r\n$5\r\nPSYNC\r\n$1\r\n?\r\n$2\r\n-1\r\n"));
    assert_eq!(state, HandshakeState::PsyncSent);
    let (cmd, state) = handshake_step(state, "+FULLRESYNC abc 0\r\n", 6380);
    assert!(cmd.is_none());
    assert_eq!(state, HandshakeState::Done);
}

#[test]
fn handshake_aborts_without_pong() {
    let (_, state) = handshake_init();
    let (cmd, state) = handshake_step(state, "-ERR who are you\r\n", 6380);
    assert!(cmd.is_none());
    assert_eq!(state, HandshakeState::Failed);
    // Failure is terminal and distinct from completion.
    let (cmd, state) = handshake_step(state, "+PONG\r\n", 6380);
    assert!(cmd.is_none());
    assert_eq!(state, HandshakeState::Failed);
}
