use vstd::prelude::*;

verus! {

/// The outbound side of a client's message queue. The library only pushes
/// text onto it; a forwarding task outside the library drains the receiving
/// side onto the client's transport.
#[verifier::external_type_specification]
#[verifier::external_body]
#[verifier::reject_recursive_types(T)]
pub struct ExUnboundedSender<T>(tokio::sync::mpsc::UnboundedSender<T>);

/// Relies on tokio::sync::mpsc::UnboundedSender::send: queues the value for
/// the receiving side unless the receiver has been dropped. A failed push is
/// deliberately ignored: that peer is presumed to be disconnecting and is
/// reaped by its own handler.
#[verifier::external_body]
pub(crate) fn push_text(tx: &tokio::sync::mpsc::UnboundedSender<String>, text: &str) {
    let _ = tx.send(text.to_string());
}

} // verus!
