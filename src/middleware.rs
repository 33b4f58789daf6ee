use vstd::prelude::*;

verus! {

/// Hands out request ids from a counter.
#[derive(Debug, Clone, Default)]
pub struct MyMakeRequestId {
    pub counter: u64,
}

impl MyMakeRequestId {
    /// The next request id: the counter's value, which then moves on by one
    /// (wrapping around).
    pub fn make_request_id(&mut self) -> (r: u64)
        ensures
            r == old(self).counter,
            final(self).counter == (if old(self).counter == u64::MAX {
                0
            } else {
                (old(self).counter + 1) as u64
            }),
    {
        let r = self.counter;
        self.counter = self.counter.wrapping_add(1);
        r
    }
}

} // verus!
