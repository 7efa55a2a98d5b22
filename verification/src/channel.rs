//! Trusted boundary to tokio's unbounded channels. Sessions hand their
//! outbound traffic, and the upstream writer its lines, through these
//! senders; everything else about the channels lives outside the
//! library.
use vstd::prelude::*;

verus! {

/// Declares tokio's unbounded channel sender so that sessions can hold
/// one. The value is opaque: nothing about the channel's state is
/// assumed.
#[verifier::external_type_specification]
#[verifier::external_body]
#[verifier::reject_recursive_types(T)]
pub struct ExUnboundedSender<T>(tokio::sync::mpsc::UnboundedSender<T>);

/// Relies on tokio's `UnboundedSender::send`: enqueues one value without
/// blocking and fails exactly when the receiving half is closed. Whether
/// the receiver is still open is runtime state, so nothing is promised
/// of the result; a refused value is dropped, as the gateway's
/// silent-drop policy asks.
#[verifier::external_body]
pub(crate) fn chan_send<T>(tx: &tokio::sync::mpsc::UnboundedSender<T>, value: T) -> bool {
    tx.send(value).is_ok()
}

} // verus!
