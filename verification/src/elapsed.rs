//! Spans of time, and how they are shown.

use vstd::prelude::*;

verus! {

/// How a span of time is shown: what the debug format of
/// `std::time::Duration` gives with one digit after the point.
pub uninterp spec fn shown_duration(secs: u64, nanos: u32) -> Seq<char>;

/// Calls the `Debug` formatting of `std::time::Duration`, with a precision of
/// one. The result is claimed to depend on the whole seconds and the nanoseconds
/// beyond them alone; what it looks like is left unsaid. With fewer nanoseconds
/// than make up a second, `Duration::new` carries nothing over, so that it cannot
/// overflow.
#[verifier::external_body]
fn duration_text(secs: u64, nanos: u32) -> (res: String)
    requires
        nanos < 1_000_000_000,
    ensures
        res@ == shown_duration(secs, nanos),
{
    format!("{:.1?}", std::time::Duration::new(secs, nanos))
}

/// A span of time: whole seconds, and nanoseconds beyond them.
#[derive(Debug, Clone, Copy, PartialEq, Eq, Structural)]
pub struct Elapsed {
    pub secs: u64,
    pub nanos: u32,
}

impl Elapsed {
    /// The nanoseconds make up less than a second.
    pub open spec fn wf(self) -> bool {
        self.nanos < 1_000_000_000
    }

    /// How the span is shown.
    pub fn text(&self) -> (res: String)
        requires
            self.wf(),
        ensures
            res@ == shown_duration(self.secs, self.nanos),
    {
        duration_text(self.secs, self.nanos)
    }
}

} // verus!
