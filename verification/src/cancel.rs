//! Cancel tokens: the one-shot signal that tells a job's runner to stop.
use vstd::prelude::*;

use tokio::sync::oneshot;

verus! {

/// Declares `tokio::sync::oneshot::Sender` to Verus as an opaque type.
#[verifier::external_type_specification]
#[verifier::external_body]
#[verifier::reject_recursive_types(T)]
pub struct ExOneshotSender<T>(oneshot::Sender<T>);

/// Declares `tokio::sync::oneshot::Receiver` to Verus as an opaque type.
#[verifier::external_type_specification]
#[verifier::external_body]
#[verifier::reject_recursive_types(T)]
pub struct ExOneshotReceiver<T>(oneshot::Receiver<T>);

/// Declares `tokio::sync::oneshot::error::RecvError` (the receiver's error
/// type) to Verus as an opaque type; Verus asks for it because the
/// receiver's `Future` impl names it.
#[verifier::external_type_specification]
#[verifier::external_body]
pub struct ExRecvError(oneshot::error::RecvError);

/// Cancel token: dropping *or* sending `()` signals the runner to stop.
pub type CancelToken = oneshot::Sender<()>;

/// Paired receiver end of a cancel token.
pub type CancelSignal = oneshot::Receiver<()>;

/// `token` and `signal` are the two ends of one oneshot channel: sending on
/// `token`, or dropping it, completes `signal`.
pub uninterp spec fn fires(token: oneshot::Sender<()>, signal: oneshot::Receiver<()>) -> bool;

/// `tokio::sync::oneshot::channel`: a sender and a receiver built over one
/// shared state, so the sender completes that receiver.
#[verifier::external_body]
fn oneshot_channel() -> (pair: (CancelToken, CancelSignal))
    ensures
        fires(pair.0, pair.1),
{
    oneshot::channel()
}

/// A fresh cancel token and the signal it fires.
pub fn cancel_pair() -> (pair: (CancelToken, CancelSignal))
    ensures
        fires(pair.0, pair.1),
{
    oneshot_channel()
}

/// Evidence that a cancel token was fired.  Its field is private to this
/// module, so only [`fire_cancel`] makes one.
pub struct CancelReceipt {
    token: Ghost<CancelToken>,
}

impl CancelReceipt {
    /// The token whose signal was fired.
    pub closed spec fn token(&self) -> CancelToken {
        self.token@
    }
}

/// `oneshot::Sender::send` with `()`: consumes `token` and sends `()` on it,
/// so its receiver yields `Ok(())` if it is still waiting.  The receipt names
/// the token that was sent on; whether the receiver was still there is not
/// observed, so nothing is stated of it.
#[verifier::external_body]
pub(crate) fn fire_cancel(token: CancelToken) -> (r: CancelReceipt)
    ensures
        r.token() == token,
{
    let receipt = CancelReceipt { token: Ghost(token) };
    let _ = token.send(());
    receipt
}

} // verus!
