//! Presentation state for progress lines: a restartable timer and the row of
//! the terminal that a status line owns. The terminal itself is driven by the
//! caller; this holds only the state and the layout decisions.
use vstd::prelude::*;
use vstd::utf8::encode_utf8;

verus! {

#[verifier::external_type_specification]
#[verifier::external_body]
pub struct ExInstant(std::time::Instant);

/// Relies on `std::time::Instant::now`: a reading of the monotonic clock.
/// Nothing is known of its value.
#[verifier::external_body]
fn clock_now() -> std::time::Instant {
    std::time::Instant::now()
}

/// Relies on `std::time::Instant::elapsed`: the time since `since`, read from
/// the clock. Nothing is known of its value.
#[verifier::external_body]
fn clock_elapsed(since: &std::time::Instant) -> std::time::Duration {
    since.elapsed()
}

/// Measures wall time from its last start.
pub struct Timer {
    time: std::time::Instant,
}

impl Timer {
    /// A timer started now.
    pub fn new() -> Timer {
        Timer { time: clock_now() }
    }

    /// Restarts the timer from now.
    pub fn start(&mut self) {
        self.time = clock_now();
    }

    /// Time since the last start; the timer then restarts.
    pub fn elapsed(&mut self) -> std::time::Duration {
        let spent = clock_elapsed(&self.time);
        self.start();
        spent
    }
}

/// Width, in bytes, of a status line up to its outcome word.
pub const STATUS_WIDTH: usize = 96;

/// A status line on the terminal: the row it owns and the text it shows.
pub struct Printer {
    pub offset: u16,
    pub text: String,
}

impl Printer {
    /// A status line on row `offset`, with no text yet.
    pub fn new(offset: u16) -> (r: Printer)
        ensures
            r.offset == offset,
            r.text@ == Seq::<char>::empty(),
    {
        Printer { offset, text: String::new() }
    }

    /// Moves the line `offset` rows further down, past the lines that other
    /// status lines hold.
    pub fn reserve_line(&mut self, offset: u16)
        requires
            old(self).offset + offset <= u16::MAX,
        ensures
            final(self).offset == old(self).offset + offset,
            final(self).text@ == old(self).text@,
    {
        self.offset = self.offset + offset;
    }

    /// Sets the text that the line shows.
    pub fn begin(&mut self, text: String)
        ensures
            final(self).offset == old(self).offset,
            final(self).text@ == text@,
    {
        self.text = text;
    }

    /// Padding between the text and the outcome word, so that outcome words
    /// line up at `STATUS_WIDTH`; none when the text is already that long.
    pub fn padding(&self) -> (r: usize)
        ensures
            r == if encode_utf8(self.text@).len() >= STATUS_WIDTH {
                0
            } else {
                STATUS_WIDTH - encode_utf8(self.text@).len()
            },
    {
        let bytes = self.text.as_str().as_bytes();
        let len = bytes.len();
        if len >= STATUS_WIDTH {
            0
        } else {
            STATUS_WIDTH - len
        }
    }
}

} // verus!
