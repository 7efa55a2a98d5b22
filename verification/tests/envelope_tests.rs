use jmri_throttle_rs::message::{Direction, WiMessage, WiMessageType};
use serde_json::Value;

#[test]
fn envelope_unit_variants() {
    let m = WiMessage { message_type: WiMessageType::AddAddress, address: 5 };
    assert_eq!(m.encode_envelope(), "{\"message_type\":\"AddAddress\",\"address\":5}");
    let m = WiMessage { message_type: WiMessageType::RemoveAddress, address: -3 };
    assert_eq!(m.encode_envelope(), "{\"message_type\":\"RemoveAddress\",\"address\":-3}");
}

#[test]
fn envelope_payload_variants() {
    let m = WiMessage { message_type: WiMessageType::Velocity(-5), address: 42 };
    assert_eq!(m.encode_envelope(), "{\"message_type\":{\"Velocity\":-5},\"address\":42}");
    let m = WiMessage { message_type: WiMessageType::FunctionPressed(10), address: 128 };
    assert_eq!(
        m.encode_envelope(),
        "{\"message_type\":{\"FunctionPressed\":10},\"address\":128}"
    );
    let m = WiMessage { message_type: WiMessageType::FunctionReleased(0), address: 1 };
    assert_eq!(
        m.encode_envelope(),
        "{\"message_type\":{\"FunctionReleased\":0},\"address\":1}"
    );
    let m = WiMessage {
        message_type: WiMessageType::Direction(Direction::Reverse),
        address: 9,
    };
    assert_eq!(
        m.encode_envelope(),
        "{\"message_type\":{\"Direction\":\"Reverse\"},\"address\":9}"
    );
    let m = WiMessage { message_type: WiMessageType::Time(1699999999), address: 0 };
    assert_eq!(
        m.encode_envelope(),
        "{\"message_type\":{\"Time\":1699999999},\"address\":0}"
    );
}

#[test]
fn envelope_is_valid_json() {
    let m = WiMessage {
        message_type: WiMessageType::Direction(Direction::Forward),
        address: 77,
    };
    let v: Value = serde_json::from_str(&m.encode_envelope()).unwrap();
    assert_eq!(v["message_type"]["Direction"], Value::from("Forward"));
    assert_eq!(v["address"], Value::from(77));

    let m = WiMessage { message_type: WiMessageType::Velocity(126), address: 4 };
    let v: Value = serde_json::from_str(&m.encode_envelope()).unwrap();
    assert_eq!(v["message_type"]["Velocity"], Value::from(126));
    assert_eq!(v["address"], Value::from(4));
}
