use jmri_throttle_rs::codec::DecodeError;
use jmri_throttle_rs::message::{Direction, WiMessage, WiMessageType};

#[test]
fn direction_display() {
    assert_eq!(Direction::Reverse.encode(), "R0");
    assert_eq!(Direction::Forward.encode(), "R1");
}

#[test]
fn wi_message_type_display() {
    assert_eq!(WiMessageType::AddAddress.encode(), "+");
    assert_eq!(WiMessageType::RemoveAddress.encode(), "-");
    assert_eq!(WiMessageType::Velocity(5).encode(), "V5");
    assert_eq!(WiMessageType::FunctionPressed(5).encode(), "F15");
    assert_eq!(WiMessageType::FunctionReleased(5).encode(), "F05");
    assert_eq!(WiMessageType::Direction(Direction::Reverse).encode(), "R0");
}

#[test]
fn wi_message_display() {
    let wi_message = WiMessage {
        message_type: WiMessageType::AddAddress,
        address: 5,
    };
    assert_eq!(wi_message.encode(), "MT+S5<;>S5");
    let wi_message = WiMessage {
        message_type: WiMessageType::FunctionReleased(10),
        address: 128,
    };
    assert_eq!(wi_message.encode(), "MTAL128<;>F010");
}

#[test]
fn wi_message_type_is_address() {
    assert!(WiMessageType::AddAddress.is_address());
    assert!(WiMessageType::RemoveAddress.is_address());
    assert!(!WiMessageType::Velocity(5).is_address());
}

#[test]
fn decode_action_segments() {
    assert_eq!(WiMessageType::decode("V5"), Ok(WiMessageType::Velocity(5)));
    assert_eq!(WiMessageType::decode("V-5"), Ok(WiMessageType::Velocity(-5)));
    assert_eq!(
        WiMessageType::decode("F110"),
        Ok(WiMessageType::FunctionPressed(10))
    );
    assert_eq!(
        WiMessageType::decode("F010"),
        Ok(WiMessageType::FunctionReleased(10))
    );
    assert_eq!(
        WiMessageType::decode("R0"),
        Ok(WiMessageType::Direction(Direction::Reverse))
    );
    assert_eq!(
        WiMessageType::decode("R1"),
        Ok(WiMessageType::Direction(Direction::Forward))
    );
}

#[test]
fn decode_velocity_negative_magnitude_anywhere() {
    // The sign is recognized wherever the `-` stands in the segment.
    assert_eq!(WiMessageType::decode("V-12"), Ok(WiMessageType::Velocity(-12)));
    assert_eq!(WiMessageType::decode("V12-"), Ok(WiMessageType::Velocity(-12)));
}

#[test]
fn decode_action_errors() {
    assert_eq!(WiMessageType::decode(""), Err(DecodeError::EmptyAction));
    assert_eq!(WiMessageType::decode("X5"), Err(DecodeError::UnknownOpcode('X')));
    assert_eq!(WiMessageType::decode("V"), Err(DecodeError::BadNumber));
    assert_eq!(WiMessageType::decode("V40000"), Err(DecodeError::BadNumber));
    assert_eq!(WiMessageType::decode("F1"), Err(DecodeError::BadNumber));
    assert_eq!(WiMessageType::decode("F1300"), Err(DecodeError::BadNumber));
}

#[test]
fn decode_lines() {
    assert_eq!(
        WiMessage::decode("42<;>V5"),
        Ok(WiMessage { message_type: WiMessageType::Velocity(5), address: 42 })
    );
    assert_eq!(
        WiMessage::decode("MTAS5<;>R0"),
        Ok(WiMessage {
            message_type: WiMessageType::Direction(Direction::Reverse),
            address: 5,
        })
    );
    // Inbound subscription marks: a `-` or `+` anywhere in the head.
    assert_eq!(
        WiMessage::decode("MT-S7<;>whatever"),
        Ok(WiMessage { message_type: WiMessageType::RemoveAddress, address: 7 })
    );
    assert_eq!(
        WiMessage::decode("MT+S7<;>whatever"),
        Ok(WiMessage { message_type: WiMessageType::AddAddress, address: 7 })
    );
}

#[test]
fn decode_fast_clock_line() {
    assert_eq!(
        WiMessage::decode("PFT1699999999<;>4"),
        Ok(WiMessage {
            message_type: WiMessageType::Time(1699999999),
            address: 0,
        })
    );
}

#[test]
fn decode_line_errors() {
    // No action segment after the head.
    assert_eq!(WiMessage::decode("42"), Err(DecodeError::MissingAction));
    // No digits in the head.
    assert_eq!(WiMessage::decode("S<;>V5"), Err(DecodeError::BadAddress));
    // Address too large for the address type.
    assert_eq!(
        WiMessage::decode("9999999999<;>V5"),
        Err(DecodeError::BadAddress)
    );
    // An action segment that is present but empty.
    assert_eq!(WiMessage::decode("42<;>"), Err(DecodeError::EmptyAction));
}

#[test]
fn action_round_trip() {
    let actions = [
        WiMessageType::Velocity(0),
        WiMessageType::Velocity(126),
        WiMessageType::Velocity(-1),
        WiMessageType::Velocity(32767),
        WiMessageType::Velocity(-32767),
        WiMessageType::FunctionPressed(0),
        WiMessageType::FunctionPressed(28),
        WiMessageType::FunctionReleased(255),
        WiMessageType::Direction(Direction::Forward),
        WiMessageType::Direction(Direction::Reverse),
    ];
    for action in actions {
        assert_eq!(WiMessageType::decode(&action.encode()), Ok(action));
    }
}

#[test]
fn line_round_trip() {
    let messages = [
        WiMessage { message_type: WiMessageType::Velocity(-1), address: 0 },
        WiMessage { message_type: WiMessageType::Velocity(90), address: 127 },
        WiMessage { message_type: WiMessageType::FunctionPressed(4), address: 128 },
        WiMessage { message_type: WiMessageType::FunctionReleased(28), address: 3 },
        WiMessage {
            message_type: WiMessageType::Direction(Direction::Reverse),
            address: 2147483647,
        },
    ];
    for m in messages {
        assert_eq!(WiMessage::decode(&m.encode()), Ok(m));
    }
}

#[test]
fn address_round_trip_is_asymmetric() {
    // The outbound encoding of a subscription change is not the inbound
    // one: the action segment alone does not decode back.
    assert_eq!(
        WiMessageType::decode(&WiMessageType::AddAddress.encode()),
        Err(DecodeError::UnknownOpcode('+'))
    );
    assert_eq!(
        WiMessageType::decode(&WiMessageType::RemoveAddress.encode()),
        Err(DecodeError::UnknownOpcode('-'))
    );
}

#[test]
fn long_and_short_markers() {
    let short = WiMessage { message_type: WiMessageType::Velocity(3), address: 127 };
    assert_eq!(short.encode(), "MTAS127<;>V3");
    let long = WiMessage { message_type: WiMessageType::Velocity(3), address: 128 };
    assert_eq!(long.encode(), "MTAL128<;>V3");
}
