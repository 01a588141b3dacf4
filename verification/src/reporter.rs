//! How parsers report progress and warnings to their caller, and the
//! parser identification tag.
use vstd::prelude::*;

verus! {

/// Name of the crate that defines the parser interface.
pub fn crate_smoke() -> (r: &'static str)
    ensures
        r@ == "atlas-parser-trait"@,
{
    "atlas-parser-trait"
}

/// One call a reporter received.
pub ghost enum ReportEvent {
    Started(Option<u64>),
    Progress(u64, Seq<char>),
    Warn(Seq<char>),
    Finished,
}

/// Sink for parser progress and warnings.
///
/// Methods take `&mut self`: an implementation buffers or counts in its
/// own fields. An implementation that keeps a log of the calls it
/// receives (`keeps_log`) appends each call to it, in order.
pub trait Reporter {
    /// Whether this reporter keeps a log of its calls (by default not).
    open spec fn keeps_log(&self) -> bool {
        false
    }

    /// The calls received so far, when the reporter keeps a log.
    open spec fn log(&self) -> Seq<ReportEvent> {
        Seq::empty()
    }

    /// Called once before the first `progress`, with an estimate of the
    /// work when one is cheap to get.
    fn started(&mut self, total_estimate: Option<u64>)
        ensures
            old(self).keeps_log() ==> final(self).keeps_log() && final(self).log() == old(
                self,
            ).log().push(ReportEvent::Started(total_estimate)),
    ;

    /// Called as work advances; `current` grows in the units of the
    /// estimate.
    fn progress(&mut self, current: u64, label: &str)
        ensures
            old(self).keeps_log() ==> final(self).keeps_log() && final(self).log() == old(
                self,
            ).log().push(ReportEvent::Progress(current, label@)),
    ;

    /// Called for something the parser recovered from but reports.
    fn warn(&mut self, message: &str)
        ensures
            old(self).keeps_log() ==> final(self).keeps_log() && final(self).log() == old(
                self,
            ).log().push(ReportEvent::Warn(message@)),
    ;

    /// Called once when the parser is done.
    fn finished(&mut self)
        ensures
            old(self).keeps_log() ==> final(self).keeps_log() && final(self).log() == old(
                self,
            ).log().push(ReportEvent::Finished),
    ;
}

/// A reporter that discards everything (and keeps no log).
pub struct NullReporter;

impl Reporter for NullReporter {
    fn started(&mut self, total_estimate: Option<u64>) {
    }

    fn progress(&mut self, current: u64, label: &str) {
    }

    fn warn(&mut self, message: &str) {
    }

    fn finished(&mut self) {
    }
}

/// A reporter that keeps the warnings and counts the progress calls.
pub struct CollectingReporter {
    warnings: Vec<String>,
    progress_calls: u64,
    /// The calls received, in order.
    calls_received: Ghost<Seq<ReportEvent>>,
}

impl CollectingReporter {
    /// The warnings received and not yet taken, in order.
    pub closed spec fn pending_warnings(&self) -> Seq<Seq<char>> {
        self.warnings@.map_values(|w: String| w@)
    }

    /// The number of progress calls received.
    pub closed spec fn calls(&self) -> u64 {
        self.progress_calls
    }

    pub fn new() -> (r: CollectingReporter)
        ensures
            r.pending_warnings().len() == 0,
            r.calls() == 0,
    {
        CollectingReporter {
            warnings: Vec::new(),
            progress_calls: 0,
            calls_received: Ghost(Seq::empty()),
        }
    }

    /// Hands out the warnings received so far and forgets them.
    pub fn take_warnings(&mut self) -> (r: Vec<String>)
        ensures
            r@.map_values(|w: String| w@) == old(self).pending_warnings(),
            final(self).pending_warnings().len() == 0,
            final(self).calls() == old(self).calls(),
    {
        let mut out: Vec<String> = Vec::new();
        std::mem::swap(&mut out, &mut self.warnings);
        out
    }

    /// The number of progress calls received.
    pub fn progress_calls(&self) -> (r: u64)
        ensures
            r == self.calls(),
    {
        self.progress_calls
    }

    /// Records a warning (the `Reporter` method, with its effect stated).
    pub fn record_warning(&mut self, message: &str)
        ensures
            final(self).pending_warnings() == old(self).pending_warnings().push(message@),
            final(self).calls() == old(self).calls(),
    {
        self.warnings.push(String::from_str(message));
        proof {
            assert(self.warnings@.map_values(|w: String| w@) =~= old(
                self,
            ).warnings@.map_values(|w: String| w@).push(message@));
        }
    }

    /// Counts a progress call (the `Reporter` method, with its effect
    /// stated); the count stops at `u64::MAX`.
    pub fn record_progress(&mut self)
        ensures
            final(self).calls() == if old(self).calls() < u64::MAX {
                old(self).calls() + 1
            } else {
                old(self).calls() as int
            },
            final(self).pending_warnings() == old(self).pending_warnings(),
    {
        if self.progress_calls < u64::MAX {
            self.progress_calls = self.progress_calls + 1;
        }
    }
}

impl Reporter for CollectingReporter {
    closed spec fn keeps_log(&self) -> bool {
        true
    }

    closed spec fn log(&self) -> Seq<ReportEvent> {
        self.calls_received@
    }

    fn started(&mut self, total_estimate: Option<u64>) {
        self.calls_received = Ghost(self.calls_received@.push(ReportEvent::Started(total_estimate)));
    }

    fn progress(&mut self, current: u64, label: &str)
        ensures
            final(self).calls() == if old(self).calls() < u64::MAX {
                old(self).calls() + 1
            } else {
                old(self).calls() as int
            },
            final(self).pending_warnings() == old(self).pending_warnings(),
    {
        let ghost received = self.calls_received@;
        self.record_progress();
        self.calls_received = Ghost(received.push(ReportEvent::Progress(current, label@)));
    }

    fn warn(&mut self, message: &str)
        ensures
            final(self).pending_warnings() == old(self).pending_warnings().push(message@),
            final(self).calls() == old(self).calls(),
    {
        let ghost received = self.calls_received@;
        self.record_warning(message);
        self.calls_received = Ghost(received.push(ReportEvent::Warn(message@)));
    }

    fn finished(&mut self) {
        self.calls_received = Ghost(self.calls_received@.push(ReportEvent::Finished));
    }
}

/// Parser identification tag, such as `dumper7-ue`.
pub struct ParserId(pub String);

impl ParserId {
    pub fn new(s: String) -> (r: ParserId)
        ensures
            r.0@ == s@,
    {
        ParserId(s)
    }

    pub fn as_str(&self) -> (r: &str)
        ensures
            r@ == self.0@,
    {
        self.0.as_str()
    }
}

} // verus!
