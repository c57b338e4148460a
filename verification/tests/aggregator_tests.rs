use device_query::Keycode;
use hotkey_bridge::aggregator::{ComboAggregator, Phase, Tick, Timing};
use hotkey_bridge::sessions::Broadcaster;

fn names(items: &[&str]) -> Vec<String> {
    items.iter().map(|s| s.to_string()).collect()
}

fn detector() -> ComboAggregator {
    ComboAggregator::new(Timing { sample_period_ms: 50, settle_delay_ms: 200 })
}

fn silent() -> Tick {
    Tick { event: None, wait_ms: 50 }
}

fn emitted(combo: &str) -> Tick {
    Tick { event: Some(combo.to_string()), wait_ms: 250 }
}

#[test]
fn a_new_detector_is_idle() {
    let mut detector = detector();
    assert_eq!(detector.phase(), Phase::Idle);
    assert_eq!(detector.observe(&Vec::new()), silent());
    assert_eq!(detector.phase(), Phase::Idle);
}

#[test]
fn a_press_episode_emits_one_combination() {
    let mut detector = detector();
    assert_eq!(detector.observe(&names(&["LControl"])), silent());
    assert_eq!(detector.phase(), Phase::Accumulating);
    assert_eq!(detector.observe(&names(&["LControl", "Shift"])), silent());
    assert_eq!(detector.observe(&names(&["Shift", "K"])), silent());
    assert_eq!(detector.observe(&names(&["K"])), silent());
    assert_eq!(detector.observe(&Vec::new()), emitted("ctrl+shift+k"));
    assert_eq!(detector.phase(), Phase::Idle);
}

#[test]
fn the_order_of_the_keys_does_not_matter() {
    let orders: [[&str; 3]; 3] = [
        ["K", "Shift", "RControl"],
        ["Shift", "ControlLeft", "K"],
        ["LControl", "K", "Shift"],
    ];
    for order in orders.iter() {
        let mut detector = detector();
        for key in order.iter() {
            assert_eq!(detector.observe(&names(&[key])), silent());
        }
        assert_eq!(detector.observe(&Vec::new()), emitted("ctrl+shift+k"));
    }
}

#[test]
fn a_second_release_emits_nothing() {
    let mut detector = detector();
    assert_eq!(detector.observe(&names(&["F5"])), silent());
    assert_eq!(detector.observe(&Vec::new()), emitted("f5"));
    assert_eq!(detector.observe(&Vec::new()), silent());
    assert_eq!(detector.observe(&Vec::new()), silent());
    assert_eq!(detector.phase(), Phase::Idle);
}

#[test]
fn keys_released_early_stay_in_the_combination() {
    let mut detector = detector();
    detector.observe(&names(&["LAlt"]));
    detector.observe(&names(&["Key1"]));
    detector.observe(&names(&["Numpad1", "RAlt"]));
    assert_eq!(detector.observe(&Vec::new()), emitted("alt+1"));
}

#[test]
fn episodes_do_not_share_their_keys() {
    let mut detector = detector();
    detector.observe(&names(&["A"]));
    assert_eq!(detector.observe(&Vec::new()), emitted("a"));
    detector.observe(&names(&["B"]));
    assert_eq!(detector.observe(&Vec::new()), emitted("b"));
}

#[test]
fn an_empty_rendering_is_not_emitted() {
    let mut detector = detector();
    assert_eq!(detector.observe(&names(&[""])), silent());
    assert_eq!(detector.phase(), Phase::Accumulating);
    assert_eq!(detector.observe(&Vec::new()), Tick { event: None, wait_ms: 250 });
    assert_eq!(detector.phase(), Phase::Idle);
}

#[test]
fn the_wait_after_a_release_adds_the_settle_delay() {
    let mut quick = ComboAggregator::new(Timing { sample_period_ms: 10, settle_delay_ms: 20 });
    assert_eq!(quick.observe(&names(&["A"])), Tick { event: None, wait_ms: 10 });
    assert_eq!(quick.observe(&Vec::new()), Tick { event: Some("a".to_string()), wait_ms: 30 });
    assert_eq!(quick.observe(&Vec::new()), Tick { event: None, wait_ms: 10 });
    let mut none = ComboAggregator::new(Timing { sample_period_ms: 0, settle_delay_ms: 0 });
    none.observe(&names(&["A"]));
    assert_eq!(none.observe(&Vec::new()), Tick { event: Some("a".to_string()), wait_ms: 0 });
}

#[test]
fn the_wait_stops_at_the_largest_time() {
    let mut slow =
        ComboAggregator::new(Timing { sample_period_ms: u64::MAX - 1, settle_delay_ms: 5 });
    assert_eq!(slow.observe(&names(&["A"])), Tick { event: None, wait_ms: u64::MAX - 1 });
    assert_eq!(
        slow.observe(&Vec::new()),
        Tick { event: Some("a".to_string()), wait_ms: u64::MAX }
    );
}

#[test]
fn detectors_are_independent() {
    let mut first = detector();
    let mut second = detector();
    first.observe(&names(&["A"]));
    assert_eq!(second.observe(&Vec::new()), silent());
    assert_eq!(first.observe(&Vec::new()), emitted("a"));
}

#[test]
fn the_keys_control_shift_and_k_give_one_combination() {
    let mut detector = detector();
    let broadcaster = {
        let mut broadcaster = Broadcaster::new();
        broadcaster.subscribe(1);
        broadcaster
    };
    let snapshots = vec![
        vec![Keycode::LControl],
        vec![Keycode::LControl, Keycode::LShift],
        vec![Keycode::LShift, Keycode::K],
        vec![Keycode::K],
        Vec::new(),
    ];
    let mut messages: Vec<String> = Vec::new();
    for snapshot in snapshots.iter() {
        if let Some(combo) = detector.sample(snapshot).event {
            for delivery in broadcaster.publish(&combo) {
                messages.push(delivery.message);
            }
        }
    }
    assert_eq!(messages, vec!["COMBO:ctrl+shift+k".to_string()]);
}

#[test]
fn any_order_of_control_shift_and_k_gives_the_same_combination() {
    let orders: [[Keycode; 3]; 6] = [
        [Keycode::LControl, Keycode::LShift, Keycode::K],
        [Keycode::LControl, Keycode::K, Keycode::RShift],
        [Keycode::RShift, Keycode::RControl, Keycode::K],
        [Keycode::LShift, Keycode::K, Keycode::LControl],
        [Keycode::K, Keycode::RControl, Keycode::LShift],
        [Keycode::K, Keycode::LShift, Keycode::LControl],
    ];
    for order in orders.iter() {
        let mut detector = detector();
        for key in order.iter() {
            assert_eq!(detector.sample(&vec![*key]), silent());
        }
        assert_eq!(detector.sample(&Vec::new()), emitted("ctrl+shift+k"));
        assert_eq!(detector.sample(&Vec::new()), silent());
    }
}

#[test]
fn sample_takes_the_keys_of_the_keyboard() {
    let mut detector = detector();
    assert_eq!(detector.sample(&vec![Keycode::RControl, Keycode::Numpad7]), silent());
    assert_eq!(detector.sample(&vec![Keycode::LAlt]), silent());
    assert_eq!(detector.sample(&vec![Keycode::LShift, Keycode::Key7]), silent());
    assert_eq!(detector.sample(&Vec::new()), emitted("ctrl+shift+alt+7"));
    assert_eq!(detector.sample(&Vec::new()), silent());
}
