//! Update-notification fan-out: a bounded multi-consumer broadcast channel
//! carrying the keys of updated entries. Publishing never blocks; a lagging
//! subscriber loses the oldest unread notifications instead of applying
//! backpressure. Delivery is a property of the runtime channel state, so
//! nothing is promised of it here; tests observe it through receivers.

use vstd::prelude::*;

verus! {

#[verifier::external_type_specification]
#[verifier::external_body]
#[verifier::reject_recursive_types(T)]
/// `tokio::sync::broadcast::Sender`, declared so that the cache can hold the
/// publishing half of its notification channel.
pub struct ExSender<T>(tokio::sync::broadcast::Sender<T>);

#[verifier::external_type_specification]
#[verifier::external_body]
#[verifier::reject_recursive_types(T)]
/// `tokio::sync::broadcast::Receiver`, declared so that `subscribe_updates`
/// can hand subscriptions out.
pub struct ExReceiver<T>(tokio::sync::broadcast::Receiver<T>);

/// Relies on `tokio::sync::broadcast::channel`: creates a channel with the
/// given queue depth and returns its publishing half. Panics on a depth of
/// zero or above `usize::MAX / 2`, so those depths are excluded here.
#[verifier::external_body]
pub fn notify_channel(depth: usize) -> (tx: tokio::sync::broadcast::Sender<String>)
    requires
        1 <= depth <= usize::MAX / 2,
{
    tokio::sync::broadcast::channel(depth).0
}

/// Relies on `tokio::sync::broadcast::Sender::send`: publishes a key to every
/// current subscriber without blocking. Returns the number of receivers the
/// key was sent to, or `None` when there was none; how many that is depends
/// on runtime subscription state, so nothing is stated of it.
#[verifier::external_body]
pub fn notify_send(tx: &tokio::sync::broadcast::Sender<String>, key: String) -> (r: Option<usize>)
{
    match tx.send(key) {
        Ok(n) => Some(n),
        Err(_) => None,
    }
}

/// Relies on `tokio::sync::broadcast::Sender::subscribe`: creates a receiver
/// that observes the notifications published after this call.
#[verifier::external_body]
pub fn notify_subscribe(tx: &tokio::sync::broadcast::Sender<String>) -> (rx:
    tokio::sync::broadcast::Receiver<String>) {
    tx.subscribe()
}

} // verus!
