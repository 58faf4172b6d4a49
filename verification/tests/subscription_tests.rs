use agent_feed_indexer::subscription::{
    LogSubscription, ReconnectBackoff, StreamAction, StreamEvent, INITIAL_RECONNECT_DELAY_MS, MAX_RECONNECT_DELAY_MS,
};

#[test]
fn backoff_waits_then_doubles_up_to_a_minute() {
    let mut b = ReconnectBackoff::new();
    let waits: Vec<u64> = (0..14).map(|_| b.on_failure()).collect();
    assert_eq!(
        waits,
        vec![1000, 1000, 1000, 1000, 1000, 2000, 4000, 8000, 16000, 32000, 60000, 60000, 60000, 60000]
    );
    assert_eq!(b.reconnect_attempts(), 14);
    assert_eq!(b.current_delay_ms(), MAX_RECONNECT_DELAY_MS);
}

#[test]
fn backoff_resets_after_subscribing() {
    let mut b = ReconnectBackoff::new();
    for _ in 0..8 {
        b.on_failure();
    }
    assert_eq!(b.current_delay_ms(), 16000);
    b.on_subscribed();
    assert_eq!(b.reconnect_attempts(), 0);
    assert_eq!(b.current_delay_ms(), INITIAL_RECONNECT_DELAY_MS);
    assert_eq!(b.on_failure(), 1000);
}

#[test]
fn subscription_task_decisions() {
    let mut s = LogSubscription::new();
    assert!(!s.is_active());
    assert_eq!(s.on_no_subscription(), 1000);
    s.on_subscribe_result(false);
    assert!(!s.is_active());
    assert_eq!(s.reconnect_attempts(), 1);
    s.on_subscribe_result(true);
    assert!(s.is_active());
    assert_eq!(s.reconnect_attempts(), 0);
    assert_eq!(s.on_stream_event(StreamEvent::Message), StreamAction::Forward);
    assert!(s.is_active());
    assert_eq!(s.on_stream_event(StreamEvent::TimedOut), StreamAction::CloseAndReconnect);
    assert!(!s.is_active());
    // a stalled or ended stream is no failed attempt
    assert_eq!(s.reconnect_attempts(), 0);
    s.on_subscribe_result(true);
    assert_eq!(s.on_stream_event(StreamEvent::Ended), StreamAction::CloseAndReconnect);
    assert_eq!(s.reconnect_attempts(), 0);
    s.on_subscribe_result(true);
    assert!(s.on_shutdown());
    assert!(!s.is_active());
    assert!(!s.on_shutdown());
}

#[test]
fn one_subscription_at_a_time() {
    // opened and closed counts along a run of the task
    let mut s = LogSubscription::new();
    let (mut opened, mut closed) = (0, 0);
    s.on_no_subscription();
    s.on_subscribe_result(true);
    opened += 1;
    assert_eq!(s.on_stream_event(StreamEvent::Message), StreamAction::Forward);
    if s.on_stream_event(StreamEvent::Ended) == StreamAction::CloseAndReconnect {
        closed += 1;
    }
    assert_eq!(opened, closed);
    s.on_subscribe_result(true);
    opened += 1;
    assert_eq!(opened, closed + 1);
    if s.on_shutdown() {
        closed += 1;
    }
    assert_eq!(opened, closed);
    assert!(!s.on_shutdown());
}
