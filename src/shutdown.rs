use vstd::prelude::*;

verus! {

/// The shutdown signal of one DHT instance: it can be sent once, and every
/// long-running task checks it at each suspension point.
#[derive(Debug)]
pub struct ShutdownSignal {
    sent: bool,
}

impl ShutdownSignal {
    /// Whether the signal has been sent.
    pub closed spec fn is_sent(&self) -> bool {
        self.sent
    }

    /// A signal that has not been sent.
    pub fn new() -> (r: ShutdownSignal)
        ensures
            !r.is_sent(),
    {
        ShutdownSignal { sent: false }
    }

    /// Sends the signal. Returns whether this call sent it: only the first does.
    pub fn shutdown(&mut self) -> (r: bool)
        ensures
            r == !old(self).is_sent(),
            final(self).is_sent(),
    {
        let first = !self.sent;
        self.sent = true;
        first
    }

    /// Whether tasks should stop.
    pub fn is_shutdown(&self) -> (r: bool)
        ensures
            r == self.is_sent(),
    {
        self.sent
    }
}

} // verus!
