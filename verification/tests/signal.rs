use hello::signal::{AcceptAction, ControlChannel, Disconnected, ServerMessage};

#[test]
fn new_channel_is_connected_and_empty() {
    let mut channel = ControlChannel::new();
    assert!(channel.connected());
    assert_eq!(channel.try_recv(), None);
}

#[test]
fn sent_signal_is_seen_by_the_next_check() {
    let mut channel = ControlChannel::new();
    assert_eq!(channel.accept_step(true), AcceptAction::Submit);
    assert_eq!(channel.send(ServerMessage::ShutDown), Ok(()));
    assert_eq!(channel.accept_step(true), AcceptAction::Stop);
}

#[test]
fn shutdown_wins_over_a_failed_attempt() {
    let mut channel = ControlChannel::new();
    assert_eq!(channel.send(ServerMessage::ShutDown), Ok(()));
    assert_eq!(channel.accept_step(false), AcceptAction::Stop);
}

#[test]
fn repeated_signals_are_accepted() {
    let mut channel = ControlChannel::new();
    for _ in 0..5 {
        assert_eq!(channel.send(ServerMessage::ShutDown), Ok(()));
    }
    assert_eq!(channel.accept_step(true), AcceptAction::Stop);
    for _ in 0..4 {
        assert_eq!(channel.try_recv(), Some(ServerMessage::ShutDown));
    }
    assert_eq!(channel.try_recv(), None);
}

#[test]
fn accept_step_without_a_signal_follows_the_attempt() {
    let mut channel = ControlChannel::new();
    assert_eq!(channel.accept_step(true), AcceptAction::Submit);
    assert_eq!(channel.accept_step(false), AcceptAction::Skip);
    assert_eq!(channel.accept_step(true), AcceptAction::Submit);
}

#[test]
fn check_takes_one_signal() {
    let mut channel = ControlChannel::new();
    assert_eq!(channel.send(ServerMessage::ShutDown), Ok(()));
    assert_eq!(channel.accept_step(true), AcceptAction::Stop);
    assert_eq!(channel.accept_step(true), AcceptAction::Submit);
}

#[test]
fn send_without_a_receiver_is_refused() {
    let mut channel = ControlChannel::new();
    assert_eq!(channel.send(ServerMessage::ShutDown), Ok(()));
    channel.disconnect();
    assert!(!channel.connected());
    assert_eq!(channel.try_recv(), None);
    assert_eq!(channel.send(ServerMessage::ShutDown), Err(Disconnected));
    assert_eq!(channel.send(ServerMessage::ShutDown), Err(Disconnected));
    assert_eq!(channel.try_recv(), None);
    assert_eq!(channel.accept_step(true), AcceptAction::Submit);
}
