//! A handle shared between the receiver's protocol task and its
//! acknowledgement generator: the task can stop the generator, or ask it to
//! acknowledge at once instead of waiting for its period.

use std::sync::atomic::{AtomicBool, Ordering};
use std::sync::Arc;

use vstd::prelude::*;

verus! {

/// Two flags shared with an acknowledgement generator.  What a flag holds
/// depends on every thread that shares it, so the methods state nothing of
/// the values they read.
pub struct AckGenHandle {
    stopped: Arc<AtomicBool>,
    timeless: Arc<AtomicBool>,
}

/// Calls `Arc::clone`, which makes another pointer to the same allocation:
/// the result is the flag it was given.  What the flag holds is not stated.
#[verifier::external_body]
fn clone_flag(flag: &Arc<AtomicBool>) -> (res: Arc<AtomicBool>)
    ensures
        res == *flag,
{
    Arc::clone(flag)
}

impl AckGenHandle {
    /// Fresh flags: not stopped, with an acknowledgement without delay
    /// requested.
    pub fn new() -> (res: AckGenHandle) {
        AckGenHandle {
            stopped: Arc::new(AtomicBool::new(false)),
            timeless: Arc::new(AtomicBool::new(true)),
        }
    }

    /// Another handle on the same flags: the result holds the flags that
    /// this handle holds.
    pub fn share(&self) -> (res: AckGenHandle)
        ensures
            res == *self,
    {
        AckGenHandle { stopped: clone_flag(&self.stopped), timeless: clone_flag(&self.timeless) }
    }

    /// Stops the generator: it ends at its next poll.  The handle keeps the
    /// same flags.
    pub fn stop(&mut self)
        ensures
            *final(self) == *old(self),
    {
        self.stopped.store(true, Ordering::Release);
    }

    /// Asks the generator to acknowledge at its next poll without waiting
    /// for its period.  The handle keeps the same flags.
    pub fn request_timeless(&mut self)
        ensures
            *final(self) == *old(self),
    {
        self.timeless.store(true, Ordering::Release);
    }

    /// The generator was stopped.
    pub fn is_stopped(&self) -> (res: bool) {
        self.stopped.load(Ordering::Acquire)
    }

    /// Whether an acknowledgement without delay was requested; the request
    /// is cleared.
    pub fn take_timeless(&self) -> (res: bool) {
        self.timeless.swap(false, Ordering::Acquire)
    }
}

} // verus!
