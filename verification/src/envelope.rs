//! The outbound JSON envelope spoken toward client sessions: one object
//! with the variant under `message_type` and the address beside it. The
//! encoding below is exactly the externally-tagged form that the
//! clients' deserializer expects, with no whitespace.
use crate::message::{Direction, WiMessage, WiMessageType};
use crate::numfmt::int_str;
use crate::numfmt::push_int_i64;
use vstd::prelude::*;
use vstd::string::StringExecFns;

verus! {

/// The JSON value under `"message_type"`: a bare string for the unit
/// variants, an object with a single key for the payload-carrying ones.
pub open spec fn json_of_type(t: WiMessageType) -> Seq<char> {
    match t {
        WiMessageType::AddAddress => seq!['"', 'A', 'd', 'd', 'A', 'd', 'd', 'r', 'e', 's', 's', '"'],
        WiMessageType::RemoveAddress => seq!['"', 'R', 'e', 'm', 'o', 'v', 'e', 'A', 'd', 'd', 'r', 'e', 's', 's', '"'],
        WiMessageType::Velocity(v) => seq!['{', '"', 'V', 'e', 'l', 'o', 'c', 'i', 't', 'y', '"', ':']
            + int_str(v as int) + seq!['}'],
        WiMessageType::FunctionPressed(f) => seq!['{', '"', 'F', 'u', 'n', 'c', 't', 'i', 'o', 'n', 'P', 'r', 'e', 's', 's', 'e', 'd', '"', ':']
            + int_str(f as int) + seq!['}'],
        WiMessageType::FunctionReleased(f) => seq!['{', '"', 'F', 'u', 'n', 'c', 't', 'i', 'o', 'n', 'R', 'e', 'l', 'e', 'a', 's', 'e', 'd', '"', ':']
            + int_str(f as int) + seq!['}'],
        WiMessageType::Direction(d) => if d == Direction::Reverse {
            seq!['{', '"', 'D', 'i', 'r', 'e', 'c', 't', 'i', 'o', 'n', '"', ':', '"', 'R', 'e', 'v', 'e', 'r', 's', 'e', '"', '}']
        } else {
            seq!['{', '"', 'D', 'i', 'r', 'e', 'c', 't', 'i', 'o', 'n', '"', ':', '"', 'F', 'o', 'r', 'w', 'a', 'r', 'd', '"', '}']
        },
        WiMessageType::Time(t) => seq!['{', '"', 'T', 'i', 'm', 'e', '"', ':'] + int_str(t as int)
            + seq!['}'],
    }
}

/// The whole envelope: `message_type` first, `address` second, exactly
/// as the clients' deserializer reads it back.
pub open spec fn json_envelope(m: WiMessage) -> Seq<char> {
    seq!['{', '"', 'm', 'e', 's', 's', 'a', 'g', 'e', '_', 't', 'y', 'p', 'e', '"', ':']
        + json_of_type(m.message_type)
        + seq![',', '"', 'a', 'd', 'd', 'r', 'e', 's', 's', '"', ':'] + int_str(m.address as int)
        + seq!['}']
}

/// Appends the `message_type` value of one message to `out`.
fn push_json_of_type(out: &mut String, t: &WiMessageType)
    ensures
        final(out)@ == old(out)@ + json_of_type(*t),
{
    match t {
        WiMessageType::AddAddress => {
            proof {
                reveal_strlit("\"AddAddress\"");
            }
            out.append("\"AddAddress\"");
            proof {
                assert(final(out)@ =~= old(out)@ + json_of_type(*t));
            }
        }
        WiMessageType::RemoveAddress => {
            proof {
                reveal_strlit("\"RemoveAddress\"");
            }
            out.append("\"RemoveAddress\"");
            proof {
                assert(final(out)@ =~= old(out)@ + json_of_type(*t));
            }
        }
        WiMessageType::Velocity(v) => {
            proof {
                reveal_strlit("{\"Velocity\":");
                reveal_strlit("}");
            }
            out.append("{\"Velocity\":");
            push_int_i64(out, *v as i64);
            out.append("}");
            proof {
                assert(final(out)@ =~= old(out)@ + json_of_type(*t));
            }
        }
        WiMessageType::FunctionPressed(f) => {
            proof {
                reveal_strlit("{\"FunctionPressed\":");
                reveal_strlit("}");
            }
            out.append("{\"FunctionPressed\":");
            push_int_i64(out, *f as i64);
            out.append("}");
            proof {
                assert(final(out)@ =~= old(out)@ + json_of_type(*t));
            }
        }
        WiMessageType::FunctionReleased(f) => {
            proof {
                reveal_strlit("{\"FunctionReleased\":");
                reveal_strlit("}");
            }
            out.append("{\"FunctionReleased\":");
            push_int_i64(out, *f as i64);
            out.append("}");
            proof {
                assert(final(out)@ =~= old(out)@ + json_of_type(*t));
            }
        }
        WiMessageType::Direction(d) => {
            proof {
                reveal_strlit("{\"Direction\":\"Reverse\"}");
                reveal_strlit("{\"Direction\":\"Forward\"}");
            }
            match d {
                Direction::Reverse => out.append("{\"Direction\":\"Reverse\"}"),
                Direction::Forward => out.append("{\"Direction\":\"Forward\"}"),
            }
            proof {
                assert(final(out)@ =~= old(out)@ + json_of_type(*t));
            }
        }
        WiMessageType::Time(time) => {
            proof {
                reveal_strlit("{\"Time\":");
                reveal_strlit("}");
            }
            out.append("{\"Time\":");
            push_int_i64(out, *time);
            out.append("}");
            proof {
                assert(final(out)@ =~= old(out)@ + json_of_type(*t));
            }
        }
    }
}

impl WiMessage {
    /// The outbound envelope frame for this message, exactly as written
    /// to a client session.
    pub fn encode_envelope(&self) -> (r: String)
        ensures
            r@ == json_envelope(*self),
    {
        proof {
            reveal_strlit("{\"message_type\":");
            reveal_strlit(",\"address\":");
            reveal_strlit("}");
        }
        let mut r = String::from_str("{\"message_type\":");
        push_json_of_type(&mut r, &self.message_type);
        r.append(",\"address\":");
        push_int_i64(&mut r, self.address as i64);
        r.append("}");
        proof {
            assert(r@ =~= json_envelope(*self));
        }
        r
    }
}

} // verus!
