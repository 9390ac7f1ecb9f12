//! A timed on-screen message: text shown for a fixed duration, tracking how
//! long it has been displayed.

use vstd::prelude::*;

verus! {

/// A message with a display lifetime; the host centres and draws its text
/// while it is not yet expired.
pub struct Message {
    pub text: Vec<char>,
    /// How long the message is meant to stay up, in milliseconds.
    pub duration_ms: u32,
    /// How long it has been up so far, in milliseconds.
    pub elapsed_ms: u64,
}

impl Message {
    pub fn new(text: Vec<char>, duration_ms: u32) -> (m: Message)
        ensures
            m.text == text,
            m.duration_ms == duration_ms,
            m.elapsed_ms == 0,
    {
        Message { text, duration_ms, elapsed_ms: 0 }
    }

    /// Accumulate one tick of display time.
    pub fn update(&mut self, dt_ms: u32)
        requires
            old(self).elapsed_ms + dt_ms <= u64::MAX,
        ensures
            final(self).text == old(self).text,
            final(self).duration_ms == old(self).duration_ms,
            final(self).elapsed_ms == old(self).elapsed_ms + dt_ms,
    {
        self.elapsed_ms = self.elapsed_ms + dt_ms as u64;
    }

    /// The message has outlived its duration and should no longer be drawn.
    pub open spec fn expired(self) -> bool {
        self.elapsed_ms > self.duration_ms
    }

    pub fn is_expired(&self) -> (r: bool)
        ensures
            r == self.expired(),
    {
        self.elapsed_ms > self.duration_ms as u64
    }
}

} // verus!
