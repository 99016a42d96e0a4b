//! What the websocket server keeps of its clients.
use vstd::prelude::*;

verus! {

/// The number of clients connected, raised when one connects and lowered when
/// one leaves.
pub struct ClientCount {
    count: u32,
}

impl ClientCount {
    /// The number of clients connected.
    pub closed spec fn value(&self) -> u32 {
        self.count
    }

    /// No client yet.
    pub fn new() -> (c: ClientCount)
        ensures
            c.value() == 0,
    {
        ClientCount { count: 0 }
    }

    /// The number of clients connected.
    pub fn get(&self) -> (n: u32)
        ensures
            n == self.value(),
    {
        self.count
    }

    /// A client connected.
    pub fn opened(&mut self)
        requires
            old(self).value() < u32::MAX,
        ensures
            final(self).value() == old(self).value() + 1,
    {
        self.count = self.count + 1;
    }

    /// A client left.
    pub fn closed(&mut self)
        requires
            old(self).value() > 0,
        ensures
            final(self).value() == old(self).value() - 1,
    {
        self.count = self.count - 1;
    }
}

/// A client that connects and then leaves brings the count back to what it was.
pub proof fn lemma_open_then_close(before: ClientCount, after_open: ClientCount, after_close: ClientCount)
    requires
        before.value() < u32::MAX,
        after_open.value() == before.value() + 1,
        after_close.value() == after_open.value() - 1,
    ensures
        after_close.value() == before.value(),
{
}

/// The text sent to every client when it connects.
pub fn start_message() -> (s: &'static str)
    ensures
        s@ == "{\"start\": 1}"@,
{
    "{\"start\": 1}"
}

} // verus!
