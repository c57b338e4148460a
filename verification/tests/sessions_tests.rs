use hotkey_bridge::sessions::{combo_message, Broadcaster, Delivery};
use hotkey_bridge::error::ErrorKind;

#[test]
fn the_message_of_a_combination_carries_its_tag() {
    assert_eq!(combo_message("ctrl+shift+k"), "COMBO:ctrl+shift+k");
}

#[test]
fn publish_without_sessions_delivers_nothing() {
    let broadcaster = Broadcaster::new();
    assert!(broadcaster.publish("ctrl+k").is_empty());
}

#[test]
fn publish_delivers_to_every_session_in_order() {
    let mut broadcaster = Broadcaster::new();
    assert!(broadcaster.subscribe(7));
    assert!(broadcaster.subscribe(3));
    assert!(broadcaster.subscribe(9));
    assert_eq!(
        broadcaster.publish("alt+1"),
        vec![
            Delivery { session: 7, message: "COMBO:alt+1".to_string() },
            Delivery { session: 3, message: "COMBO:alt+1".to_string() },
            Delivery { session: 9, message: "COMBO:alt+1".to_string() },
        ]
    );
}

#[test]
fn a_session_subscribes_once() {
    let mut broadcaster = Broadcaster::new();
    assert!(broadcaster.subscribe(1));
    assert!(!broadcaster.subscribe(1));
    assert!(broadcaster.is_subscribed(1));
    assert_eq!(broadcaster.publish("k").len(), 1);
}

#[test]
fn a_session_that_left_gets_nothing() {
    let mut broadcaster = Broadcaster::new();
    broadcaster.subscribe(1);
    broadcaster.subscribe(2);
    broadcaster.subscribe(3);
    assert!(broadcaster.unsubscribe(2));
    assert!(!broadcaster.unsubscribe(2));
    assert!(!broadcaster.is_subscribed(2));
    assert_eq!(
        broadcaster.publish("k"),
        vec![
            Delivery { session: 1, message: "COMBO:k".to_string() },
            Delivery { session: 3, message: "COMBO:k".to_string() },
        ]
    );
}

#[test]
fn a_late_session_sees_only_later_events() {
    let mut broadcaster = Broadcaster::new();
    broadcaster.subscribe(1);
    let early = broadcaster.publish("a");
    broadcaster.subscribe(2);
    let late = broadcaster.publish("b");
    assert_eq!(early, vec![Delivery { session: 1, message: "COMBO:a".to_string() }]);
    assert_eq!(
        late,
        vec![
            Delivery { session: 1, message: "COMBO:b".to_string() },
            Delivery { session: 2, message: "COMBO:b".to_string() },
        ]
    );
}

#[test]
fn a_failed_delivery_ends_only_that_subscription() {
    let mut broadcaster = Broadcaster::new();
    broadcaster.subscribe(1);
    broadcaster.subscribe(2);
    broadcaster.subscribe(3);
    assert_eq!(broadcaster.settle_delivery(1, true), Ok(()));
    assert_eq!(broadcaster.settle_delivery(2, false), Err(ErrorKind::TransportClosed));
    assert_eq!(broadcaster.settle_delivery(3, true), Ok(()));
    assert!(!broadcaster.is_subscribed(2));
    assert_eq!(
        broadcaster.publish("k"),
        vec![
            Delivery { session: 1, message: "COMBO:k".to_string() },
            Delivery { session: 3, message: "COMBO:k".to_string() },
        ]
    );
    assert_eq!(broadcaster.settle_delivery(9, false), Err(ErrorKind::TransportClosed));
    assert_eq!(broadcaster.publish("k").len(), 2);
}
