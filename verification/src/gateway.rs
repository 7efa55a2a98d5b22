//! Dispatch rules of the gateway: what one upstream line does to the
//! clock cache and the registered sessions, what one client message does
//! to the registry and the upstream queue, and the session open and
//! close transitions. The surrounding tasks, sockets and locks stay
//! outside the library; these functions take and return plain values.
use crate::channel::chan_send;
use crate::codec::{encoded_line, is_status_line, spec_is_status_line, spec_parse_line, DecodeError};
use crate::message::{WiMessage, WiMessageType};
use crate::registry::{
    ids_of, register_effect, route_ids, subscribe_effect, unregister_effect, unsubscribe_effect,
    Registry,
};
use vstd::prelude::*;
use vstd::string::StringExecFns;

verus! {

/// What the upstream reader did with one line.
pub enum Dispatch {
    /// A roster/turnout/route status line: discarded, no message
    /// produced.
    Skipped,
    /// The line did not parse; it is dropped and the link continues.
    Rejected(DecodeError),
    /// A fast-clock tick: the clock cache took the value and the message
    /// went to every registered session, irrespective of subscriptions.
    Broadcast(Vec<u128>),
    /// Any other message: it went to exactly the sessions subscribed to
    /// its address.
    Routed(Vec<u128>),
}

/// Applies one upstream line: status lines are skipped, a fast-clock
/// tick overwrites the clock cache and is broadcast, every other message
/// is routed by its address, and a line that does not parse changes
/// nothing.
pub fn handle_upstream_line(reg: &Registry, clock: &mut i64, line: &str) -> (r: Dispatch)
    ensures
        spec_is_status_line(line@) ==> r is Skipped && *final(clock) == *old(clock),
        !spec_is_status_line(line@) ==> match spec_parse_line(line@) {
            Err(e) => r == Dispatch::Rejected(e) && *final(clock) == *old(clock),
            Ok(m) => match m.message_type {
                WiMessageType::Time(t) => *final(clock) == t && (r matches Dispatch::Broadcast(ids)
                    && ids@ == ids_of(reg.clients@)),
                _ => *final(clock) == *old(clock) && (r matches Dispatch::Routed(ids) && ids@
                    == route_ids(reg.clients@, m.address)),
            },
        },
{
    if is_status_line(line) {
        return Dispatch::Skipped;
    }
    match WiMessage::decode(line) {
        Err(e) => Dispatch::Rejected(e),
        Ok(m) => match m.message_type {
            WiMessageType::Time(t) => {
                *clock = t;
                Dispatch::Broadcast(reg.broadcast_all(m))
            }
            _ => Dispatch::Routed(reg.route_by_address(m.address, m)),
        },
    }
}

/// Applies one decoded client message: a subscription change mutates
/// that session's entry (and nobody else's), and every message — the
/// subscription changes included — is encoded and enqueued toward the
/// upstream link. Returns the enqueued line.
pub fn handle_client_message(
    reg: &mut Registry,
    id: u128,
    m: WiMessage,
    upstream: &tokio::sync::mpsc::UnboundedSender<String>,
) -> (line: String)
    requires
        old(reg).wf(),
    ensures
        final(reg).wf(),
        line@ == encoded_line(m),
        m.message_type == WiMessageType::AddAddress ==> subscribe_effect(
            *old(reg),
            *final(reg),
            id,
            m.address,
        ),
        m.message_type == WiMessageType::RemoveAddress ==> unsubscribe_effect(
            *old(reg),
            *final(reg),
            id,
            m.address,
        ),
        !(m.message_type == WiMessageType::AddAddress || m.message_type
            == WiMessageType::RemoveAddress) ==> *final(reg) == *old(reg),
{
    match m.message_type {
        WiMessageType::AddAddress => reg.subscribe(id, m.address),
        WiMessageType::RemoveAddress => reg.unsubscribe(id, m.address),
        _ => {}
    }
    let line = m.encode();
    chan_send(upstream, line.clone());
    line
}

/// Opens a session: seeds its outbound channel with the cached fast
/// clock, so the new session need not wait for the next upstream tick,
/// then registers it with no subscriptions, owning exactly that channel.
/// Returns the seed message that was enqueued.
pub fn session_open(
    reg: &mut Registry,
    id: u128,
    sender: tokio::sync::mpsc::UnboundedSender<WiMessage>,
    clock: i64,
) -> (seed: WiMessage)
    requires
        old(reg).wf(),
    ensures
        final(reg).wf(),
        register_effect(*old(reg), *final(reg), id, sender),
        seed == (WiMessage { message_type: WiMessageType::Time(clock), address: 0 }),
{
    let seed = WiMessage::new(0, WiMessageType::Time(clock));
    chan_send(&sender, seed);
    reg.register(id, sender);
    seed
}

/// Closes a session: removes its entry and enqueues one `RemoveAddress`
/// line toward the upstream link for every address it still held — in
/// subscription order, whether or not another session holds the same
/// address. Returns the enqueued lines.
pub fn session_close(
    reg: &mut Registry,
    id: u128,
    upstream: &tokio::sync::mpsc::UnboundedSender<String>,
) -> (lines: Vec<String>)
    requires
        old(reg).wf(),
    ensures
        final(reg).wf(),
        unregister_effect(*old(reg), *final(reg), id),
        old(reg).has_id(id) ==> {
            &&& lines@.len() == old(reg).addr_seq_of(id).len()
            &&& forall|k: int|
                0 <= k < lines@.len() ==> (#[trigger] lines@[k])@ == encoded_line(
                    WiMessage {
                        message_type: WiMessageType::RemoveAddress,
                        address: old(reg).addr_seq_of(id)[k],
                    },
                )
        },
        !old(reg).has_id(id) ==> lines@.len() == 0 && *final(reg) == *old(reg),
{
    let removed = reg.unregister(id);
    let mut lines: Vec<String> = Vec::new();
    match removed {
        None => lines,
        Some(c) => {
            let mut i: usize = 0;
            while i < c.addresses.len()
                invariant
                    i <= c.addresses@.len(),
                    lines@.len() == i,
                    forall|k: int|
                        0 <= k < i ==> (#[trigger] lines@[k])@ == encoded_line(
                            WiMessage {
                                message_type: WiMessageType::RemoveAddress,
                                address: c.addresses@[k],
                            },
                        ),
                decreases c.addresses@.len() - i,
            {
                let line = WiMessage::new(c.addresses[i], WiMessageType::RemoveAddress).encode();
                chan_send(upstream, line.clone());
                lines.push(line);
                i = i + 1;
            }
            lines
        }
    }
}

/// A whitespace character that line framing can leave around an
/// upstream line.
pub open spec fn is_line_ws(c: char) -> bool {
    c == ' ' || c == '\t' || c == '\r' || c == '\n'
}

/// First index at or after `i` holding a non-whitespace character, or
/// the length when none follows.
pub open spec fn first_solid_from(s: Seq<char>, i: int) -> int
    recommends
        0 <= i <= s.len(),
    decreases s.len() - i when 0 <= i <= s.len()
{
    if i >= s.len() {
        i
    } else if !is_line_ws(s[i]) {
        i
    } else {
        first_solid_from(s, i + 1)
    }
}

/// One past the last non-whitespace character before `i`, or 0 when
/// none stands there.
pub open spec fn last_solid_until(s: Seq<char>, i: int) -> int
    recommends
        0 <= i <= s.len(),
    decreases i when 0 <= i <= s.len()
{
    if i <= 0 {
        0
    } else if !is_line_ws(s[i - 1]) {
        i
    } else {
        last_solid_until(s, i - 1)
    }
}

/// The line with its surrounding framing whitespace removed.
pub open spec fn spec_trimmed(s: Seq<char>) -> Seq<char> {
    let a = first_solid_from(s, 0);
    let b = last_solid_until(s, s.len() as int);
    if a < b {
        s.subrange(a, b)
    } else {
        Seq::empty()
    }
}

/// The last-solid bound never runs past `i`.
proof fn lemma_last_solid_bounds(s: Seq<char>, i: int)
    requires
        0 <= i <= s.len(),
    ensures
        0 <= last_solid_until(s, i) <= i,
    decreases i,
{
    if i > 0 && is_line_ws(s[i - 1]) {
        lemma_last_solid_bounds(s, i - 1);
    }
}

/// Normalizes one line read from the upstream socket: strips the
/// framing whitespace around it and refuses a line that was blank, which
/// the reader skips without dispatching anything.
pub fn clean_line(s: &str) -> (r: Option<String>)
    ensures
        match r {
            Some(t) => t@ == spec_trimmed(s@) && t@.len() > 0,
            None => spec_trimmed(s@).len() == 0,
        },
{
    let len: usize = s.unicode_len();
    let mut a: usize = 0;
    loop
        invariant_except_break
            a <= len,
            len == s@.len(),
            first_solid_from(s@, 0) == first_solid_from(s@, a as int),
        ensures
            a <= len,
            len == s@.len(),
            first_solid_from(s@, 0) == a,
            a < len ==> !is_line_ws(s@[a as int]),
        decreases len - a,
    {
        if a == len {
            proof {
                assert(first_solid_from(s@, a as int) == a);
            }
            break;
        }
        let c = s.get_char(a);
        if !(c == ' ' || c == '\t' || c == '\r' || c == '\n') {
            proof {
                assert(first_solid_from(s@, a as int) == a);
            }
            break;
        }
        a = a + 1;
    }
    if a == len {
        proof {
            lemma_last_solid_bounds(s@, len as int);
        }
        return None;
    }
    let mut b: usize = len;
    loop
        invariant_except_break
            a < b <= len,
            len == s@.len(),
            !is_line_ws(s@[a as int]),
            last_solid_until(s@, len as int) == last_solid_until(s@, b as int),
        ensures
            a < b <= len,
            len == s@.len(),
            last_solid_until(s@, len as int) == b,
        decreases b,
    {
        let c = s.get_char(b - 1);
        if !(c == ' ' || c == '\t' || c == '\r' || c == '\n') {
            proof {
                assert(last_solid_until(s@, b as int) == b);
            }
            break;
        }
        proof {
            assert(b - 1 == a ==> !is_line_ws(s@[(b - 1) as int]));
            assert(last_solid_until(s@, b as int) == last_solid_until(s@, b - 1 as int));
        }
        b = b - 1;
    }
    Some(String::from_str(s.substring_char(a, b)))
}

/// The two-line identification handshake sent right after the upstream
/// connection is established: `HU` with the gateway's session id, a
/// newline, then `N` with the throttle name.
pub fn handshake_message(session_id: &str, throttle_name: &str) -> (r: String)
    ensures
        r@ == seq!['H', 'U'] + session_id@ + seq!['\n', 'N'] + throttle_name@,
{
    proof {
        reveal_strlit("HU");
        reveal_strlit("\nN");
    }
    let mut r = String::from_str("HU");
    r.append(session_id);
    r.append("\nN");
    r.append(throttle_name);
    proof {
        assert(r@ =~= seq!['H', 'U'] + session_id@ + seq!['\n', 'N'] + throttle_name@);
    }
    r
}

/// The keep-alive line enqueued on a fixed interval to hold the
/// upstream session open.
pub fn heartbeat_line() -> (r: String)
    ensures
        r@ == seq!['*'],
{
    proof {
        reveal_strlit("*");
    }
    let r = String::from_str("*");
    proof {
        assert(r@ =~= seq!['*']);
    }
    r
}

} // verus!
