use jmri_throttle_rs::gateway::{
    clean_line, handle_client_message, handle_upstream_line, handshake_message, heartbeat_line,
    session_close, session_open, Dispatch,
};
use jmri_throttle_rs::message::{WiMessage, WiMessageType};
use jmri_throttle_rs::registry::Registry;
use tokio::sync::mpsc::{unbounded_channel, UnboundedReceiver};

fn open_session(reg: &mut Registry, id: u128, clock: i64) -> UnboundedReceiver<WiMessage> {
    let (tx, rx) = unbounded_channel();
    session_open(reg, id, tx, clock);
    rx
}

#[test]
fn session_open_seeds_clock() {
    let mut reg = Registry::new();
    let (tx, mut rx) = unbounded_channel();
    let seed = session_open(&mut reg, 1, tx, 777);
    let expected = WiMessage { message_type: WiMessageType::Time(777), address: 0 };
    assert_eq!(seed, expected);
    assert_eq!(rx.try_recv().unwrap(), expected);
    assert!(rx.try_recv().is_err());
}

#[test]
fn blank_and_padded_lines() {
    assert_eq!(clean_line(""), None);
    assert_eq!(clean_line("   \r\n\t"), None);
    assert_eq!(clean_line("  42<;>V5 \r"), Some("42<;>V5".to_string()));
    // Only the surrounding whitespace goes; the middle stays.
    assert_eq!(clean_line("PFT1 2\r"), Some("PFT1 2".to_string()));
}

#[test]
fn status_lines_dispatch_nothing() {
    let mut reg = Registry::new();
    let mut rx = open_session(&mut reg, 1, 0);
    rx.try_recv().unwrap(); // discard the clock seed
    let mut clock: i64 = 5;
    for line in ["PTA4401", "PTL22", "RCD", "PTT55", "PRT", "PRL", "RL16"] {
        let outcome = handle_upstream_line(&reg, &mut clock, line);
        assert!(matches!(outcome, Dispatch::Skipped));
    }
    assert_eq!(clock, 5);
    assert!(rx.try_recv().is_err());
}

#[test]
fn fast_clock_reaches_every_session() {
    let mut reg = Registry::new();
    let (up_tx, _up_rx) = unbounded_channel::<String>();
    let mut rx_a = open_session(&mut reg, 1, 0);
    let mut rx_b = open_session(&mut reg, 2, 0);
    rx_a.try_recv().unwrap();
    rx_b.try_recv().unwrap();
    // Only B subscribes to anything; the tick must reach both anyway.
    handle_client_message(
        &mut reg,
        2,
        WiMessage { message_type: WiMessageType::AddAddress, address: 42 },
        &up_tx,
    );
    let mut clock: i64 = 0;
    let outcome = handle_upstream_line(&reg, &mut clock, "PFT1699999999<;>4");
    match outcome {
        Dispatch::Broadcast(ids) => assert_eq!(ids, vec![1, 2]),
        _ => panic!("expected a broadcast"),
    }
    assert_eq!(clock, 1699999999);
    let expected = WiMessage { message_type: WiMessageType::Time(1699999999), address: 0 };
    assert_eq!(rx_a.try_recv().unwrap(), expected);
    assert_eq!(rx_b.try_recv().unwrap(), expected);
    assert!(rx_a.try_recv().is_err());
    assert!(rx_b.try_recv().is_err());
}

#[test]
fn routing_skips_the_unsubscribed() {
    let mut reg = Registry::new();
    let (up_tx, _up_rx) = unbounded_channel::<String>();
    let mut rx_a = open_session(&mut reg, 1, 0);
    let mut rx_b = open_session(&mut reg, 2, 0);
    rx_a.try_recv().unwrap();
    rx_b.try_recv().unwrap();
    handle_client_message(
        &mut reg,
        2,
        WiMessage { message_type: WiMessageType::AddAddress, address: 42 },
        &up_tx,
    );
    let mut clock: i64 = 0;
    let outcome = handle_upstream_line(&reg, &mut clock, "42<;>V5");
    match outcome {
        Dispatch::Routed(ids) => assert_eq!(ids, vec![2]),
        _ => panic!("expected a routed message"),
    }
    // A has no subscriptions and receives nothing.
    assert!(rx_a.try_recv().is_err());
    assert_eq!(
        rx_b.try_recv().unwrap(),
        WiMessage { message_type: WiMessageType::Velocity(5), address: 42 }
    );
}

#[test]
fn rejected_line_changes_nothing() {
    let mut reg = Registry::new();
    let mut rx = open_session(&mut reg, 1, 0);
    rx.try_recv().unwrap();
    let mut clock: i64 = 9;
    let outcome = handle_upstream_line(&reg, &mut clock, "42<;>Q1");
    assert!(matches!(outcome, Dispatch::Rejected(_)));
    assert_eq!(clock, 9);
    assert!(rx.try_recv().is_err());
}

#[test]
fn client_message_reaches_upstream_queue() {
    let mut reg = Registry::new();
    let (up_tx, mut up_rx) = unbounded_channel::<String>();
    let mut rx = open_session(&mut reg, 7, 0);
    rx.try_recv().unwrap();
    let line = handle_client_message(
        &mut reg,
        7,
        WiMessage { message_type: WiMessageType::AddAddress, address: 10 },
        &up_tx,
    );
    assert_eq!(line, "MT+S10<;>S10");
    assert_eq!(up_rx.try_recv().unwrap(), "MT+S10<;>S10");
    let line = handle_client_message(
        &mut reg,
        7,
        WiMessage { message_type: WiMessageType::Velocity(-1), address: 10 },
        &up_tx,
    );
    assert_eq!(line, "MTAS10<;>V-1");
    assert_eq!(up_rx.try_recv().unwrap(), "MTAS10<;>V-1");
}

#[test]
fn unsubscribe_stops_routing() {
    let mut reg = Registry::new();
    let (up_tx, _up_rx) = unbounded_channel::<String>();
    let mut rx = open_session(&mut reg, 3, 0);
    rx.try_recv().unwrap();
    for addr in [10, 20] {
        handle_client_message(
            &mut reg,
            3,
            WiMessage { message_type: WiMessageType::AddAddress, address: addr },
            &up_tx,
        );
    }
    handle_client_message(
        &mut reg,
        3,
        WiMessage { message_type: WiMessageType::RemoveAddress, address: 10 },
        &up_tx,
    );
    let mut clock: i64 = 0;
    match handle_upstream_line(&reg, &mut clock, "10<;>V5") {
        Dispatch::Routed(ids) => assert!(ids.is_empty()),
        _ => panic!("expected a routed message"),
    }
    match handle_upstream_line(&reg, &mut clock, "20<;>V5") {
        Dispatch::Routed(ids) => assert_eq!(ids, vec![3]),
        _ => panic!("expected a routed message"),
    }
}

#[test]
fn closing_releases_every_held_address() {
    let mut reg = Registry::new();
    let (up_tx, mut up_rx) = unbounded_channel::<String>();
    let mut rx = open_session(&mut reg, 9, 0);
    rx.try_recv().unwrap();
    for addr in [10, 20] {
        handle_client_message(
            &mut reg,
            9,
            WiMessage { message_type: WiMessageType::AddAddress, address: addr },
            &up_tx,
        );
        up_rx.try_recv().unwrap();
    }
    let lines = session_close(&mut reg, 9, &up_tx);
    assert_eq!(lines, vec!["MT-S10<;>S10", "MT-S20<;>S20"]);
    assert_eq!(up_rx.try_recv().unwrap(), "MT-S10<;>S10");
    assert_eq!(up_rx.try_recv().unwrap(), "MT-S20<;>S20");
    assert!(up_rx.try_recv().is_err());
    // The entry is gone: nothing routes to the departed session.
    let mut clock: i64 = 0;
    match handle_upstream_line(&reg, &mut clock, "10<;>V5") {
        Dispatch::Routed(ids) => assert!(ids.is_empty()),
        _ => panic!("expected a routed message"),
    }
}

#[test]
fn closing_an_unknown_session_is_a_no_op() {
    let mut reg = Registry::new();
    let (up_tx, mut up_rx) = unbounded_channel::<String>();
    let lines = session_close(&mut reg, 5, &up_tx);
    assert!(lines.is_empty());
    assert!(up_rx.try_recv().is_err());
}

#[test]
fn handshake_and_heartbeat() {
    assert_eq!(handshake_message("abc", "TestThrottleRs"), "HUabc\nNTestThrottleRs");
    assert_eq!(heartbeat_line(), "*");
}
