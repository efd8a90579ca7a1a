use vstd::prelude::*;

verus! {

#[verifier::external_type_specification]
#[verifier::external_body]
#[verifier::reject_recursive_types(T)]
pub struct ExSender<T>(crossbeam_channel::Sender<T>);

#[verifier::external_type_specification]
#[verifier::external_body]
#[verifier::reject_recursive_types(T)]
pub struct ExReceiver<T>(crossbeam_channel::Receiver<T>);

/// Relies on crossbeam_channel::unbounded: the two halves of a fresh
/// channel. No message is ever sent on it; it only carries its own
/// disconnection.
#[verifier::external_body]
fn raw_unbounded() -> (crossbeam_channel::Sender<()>, crossbeam_channel::Receiver<()>) {
    crossbeam_channel::unbounded()
}

/// Relies on crossbeam_channel: dropping the only sender disconnects
/// the channel, waking every receiver.
#[verifier::external_body]
fn disconnect(sender: crossbeam_channel::Sender<()>) {
    drop(sender);
}

/// Relies on crossbeam_channel::Receiver::recv: on a channel that
/// never carries a message, it blocks until the sending half is
/// disconnected and then returns.
#[verifier::external_body]
fn wait_disconnect(receiver: &crossbeam_channel::Receiver<()>) {
    let _ = receiver.recv();
}

/// Relies on crossbeam_channel::Receiver::clone: the clone taps the
/// same channel, so it observes the same disconnection.
#[verifier::external_body]
fn clone_receiver(receiver: &crossbeam_channel::Receiver<()>) -> crossbeam_channel::Receiver<()> {
    receiver.clone()
}

/// The producing half of a one-shot broadcast waiter. Held by the
/// fetch worker that owns the download; finishing it (or dropping it)
/// releases every subscriber of the same waiter.
pub struct Publisher {
    sender: crossbeam_channel::Sender<()>,
    label: Ghost<int>,
}

/// The consuming half of a one-shot broadcast waiter. Cloneable; a
/// request handler blocks on it until the publisher of the same waiter
/// has finished.
pub struct Subscriber {
    receiver: crossbeam_channel::Receiver<()>,
    label: Ghost<int>,
}

impl Publisher {
    /// Which waiter this publisher belongs to.
    pub closed spec fn id(&self) -> int {
        self.label@
    }

    /// Release every subscriber of this waiter, now and in the future.
    pub fn finish(self) {
        let Publisher { sender, label: _ } = self;
        disconnect(sender);
    }
}

impl Subscriber {
    /// Which waiter this subscriber belongs to.
    pub closed spec fn id(&self) -> int {
        self.label@
    }

    /// Block until the publisher of this waiter has finished.
    pub fn wait(&self) {
        wait_disconnect(&self.receiver);
    }

    /// Another subscriber of the same waiter.
    pub fn subscribe(&self) -> (r: Subscriber)
        ensures
            r.id() == self.id(),
    {
        Subscriber { receiver: clone_receiver(&self.receiver), label: self.label }
    }
}

/// A fresh waiter carrying the given ghost label: one publisher and
/// one subscriber of the same broadcast.
pub fn new_pair_labeled(label: Ghost<int>) -> (r: (Publisher, Subscriber))
    ensures
        r.0.id() == label@,
        r.1.id() == label@,
{
    let (sender, receiver) = raw_unbounded();
    (Publisher { sender, label }, Subscriber { receiver, label })
}

/// A fresh waiter: one publisher and one subscriber of the same
/// broadcast.
pub fn new_pair() -> (r: (Publisher, Subscriber))
    ensures
        r.0.id() == r.1.id(),
{
    new_pair_labeled(Ghost(0))
}

} // verus!
