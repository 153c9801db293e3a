use tokio::sync::broadcast::error::TryRecvError;
use vstats::broadcast::Broadcaster;

#[test]
fn idle_viewer_does_not_hold_back_publishing() {
    let mut b = Broadcaster::new(4);
    let idle = b.subscribe().unwrap();
    let mut active = b.subscribe().unwrap();
    for k in 0..100 {
        assert_eq!(b.publish(format!("m{}", k)), 2);
        assert_eq!(active.try_recv().unwrap(), format!("m{}", k));
    }
    assert_eq!(b.subscriptions(), 2);
    drop(idle);
}

#[test]
fn lagging_viewer_loses_oldest_messages() {
    let mut b = Broadcaster::new(4);
    let mut slow = b.subscribe().unwrap();
    for k in 0..10 {
        b.publish(format!("m{}", k));
    }
    assert!(matches!(slow.try_recv(), Err(TryRecvError::Lagged(6))));
    assert_eq!(slow.try_recv().unwrap(), "m6");
}

#[test]
fn publish_without_viewers_reaches_nobody() {
    let b = Broadcaster::new(8);
    assert_eq!(b.publish("x".to_string()), 0);
    assert_eq!(b.capacity(), 8);
}
