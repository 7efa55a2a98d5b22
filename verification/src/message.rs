//! The structured message exchanged between client sessions, the gateway
//! and the upstream control server.
use vstd::prelude::*;

verus! {

/// Locomotive address. Addresses below 128 use the short wire marker `S`;
/// 128 and above use the long marker `L`. No other validation is applied.
pub type Address = i32;

/// Speed step: `-1` is emergency stop, `0` is stop, `1..=126` are speed
/// steps. Transmitted with an explicit sign.
pub type Velocity = i16;

/// Identifier of a toggleable function (headlight, bell, ...),
/// conventionally `0..=28`.
pub type Function = u8;

/// Travel direction of a locomotive. `Forward` is the default.
#[derive(Clone, Copy, Debug, PartialEq, Eq, Structural)]
pub enum Direction {
    Reverse,
    Forward,
}

impl Default for Direction {
    fn default() -> (r: Self)
        ensures
            r == Direction::Forward,
    {
        Direction::Forward
    }
}

/// The payload of one message: subscription changes, throttle actions,
/// and the upstream fast-clock broadcast.
#[derive(Clone, Copy, Debug, PartialEq, Eq, Structural)]
pub enum WiMessageType {
    AddAddress,
    RemoveAddress,
    Velocity(Velocity),
    FunctionPressed(Function),
    FunctionReleased(Function),
    Direction(Direction),
    Time(i64),
}

impl WiMessageType {
    /// True exactly for the two subscription-change variants, whose
    /// outbound encoding differs from every other variant's.
    pub fn is_address(&self) -> (r: bool)
        ensures
            r == (*self == WiMessageType::AddAddress || *self == WiMessageType::RemoveAddress),
    {
        match self {
            WiMessageType::AddAddress | WiMessageType::RemoveAddress => true,
            _ => false,
        }
    }
}

/// One message paired with the address it concerns (zero for `Time`,
/// whose delivery ignores the address).
#[derive(Clone, Copy, Debug, PartialEq, Eq, Structural)]
pub struct WiMessage {
    pub message_type: WiMessageType,
    pub address: Address,
}

impl WiMessage {
    pub fn new(address: Address, message_type: WiMessageType) -> (r: Self)
        ensures
            r.address == address,
            r.message_type == message_type,
    {
        Self { address, message_type }
    }
}

} // verus!
