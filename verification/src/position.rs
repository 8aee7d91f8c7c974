//! Putting an input at the start of a range, and bounding what is read from
//! there.
//!
//! Nothing here touches an input. A caller that holds one asks what to do
//! next, does it, and reports how it went: a seek where the input can seek,
//! and reading and dropping bytes where it cannot.

use crate::range::Range;
use vstd::prelude::*;

verus! {

/// The most that one read asks for while bytes are dropped: large, so that
/// a long way to the start does not take many small reads.
pub const TRANSFER_SIZE: usize = 1_048_576;

/// How an attempt to seek forward ended.
#[derive(Debug, Clone, Copy, PartialEq, Eq, Structural)]
pub enum SeekOutcome {
    /// The input is at the new offset.
    Moved,
    /// The input is of a kind that cannot seek, such as a pipe.
    Unseekable,
    /// The attempt failed for another reason.
    Failed,
}

/// How an attempt to read ended.
#[derive(Debug, Clone, Copy, PartialEq, Eq)]
pub enum ReadOutcome {
    /// So many bytes were read; none means that the input has ended.
    Got(usize),
    /// The read was interrupted before any byte came.
    Interrupted,
    /// The read failed.
    Failed,
}

/// What is reported to a machine: the outcome of the step it asked for.
#[derive(Debug, Clone, Copy, PartialEq, Eq)]
pub enum Event {
    Seek(SeekOutcome),
    Read(ReadOutcome),
}

/// The count of bytes that a source may still yield.
#[derive(Debug, Clone, Copy)]
pub struct Bounded {
    limit: Option<u64>,
    left: u64,
}

impl Bounded {
    /// No more is left than the limit allows.
    #[verifier::type_invariant]
    pub closed spec fn wf(self) -> bool {
        match self.limit {
            Some(limit) => self.left <= limit,
            None => true,
        }
    }

    /// The most that the source may yield in all, or `None` where it is not
    /// bounded.
    pub closed spec fn limit(self) -> Option<u64> {
        self.limit
    }

    /// The count of bytes that the source may still yield, or `None` where
    /// it is not bounded.
    pub closed spec fn remaining(self) -> Option<u64> {
        match self.limit {
            Some(_) => Some(self.left),
            None => None,
        }
    }

    /// The count of bytes that a bounded source has yielded.
    pub open spec fn yielded(self) -> nat {
        match (self.limit(), self.remaining()) {
            (Some(limit), Some(left)) => (limit - left) as nat,
            _ => 0,
        }
    }

    /// The most that one read may ask for where the caller has room for
    /// `want` bytes.
    pub open spec fn grant(self, want: nat) -> nat {
        match self.remaining() {
            Some(left) => if want <= left {
                want
            } else {
                left as nat
            },
            None => want,
        }
    }

    /// The source once it has yielded `got` bytes more.
    pub closed spec fn after(self, got: usize) -> Bounded {
        match self.limit {
            Some(_) => Bounded { left: (self.left - got) as u64, ..self },
            None => self,
        }
    }

    /// The source once it has yielded each of `gots` in turn.
    pub open spec fn after_all(self, gots: Seq<usize>) -> Bounded
        decreases gots.len(),
    {
        if gots.len() == 0 {
            self
        } else {
            self.after_all(gots.drop_last()).after(gots.last())
        }
    }

    /// Each of `gots` is what one read brought that asked for no more than
    /// was granted, whatever the caller had room for.
    pub open spec fn within_grants(self, gots: Seq<usize>) -> bool
        decreases gots.len(),
    {
        gots.len() == 0 || {
            &&& self.within_grants(gots.drop_last())
            &&& gots.last() <= self.after_all(gots.drop_last()).grant(usize::MAX as nat)
        }
    }

    /// A source that has yielded nothing yet.
    pub fn new(limit: Option<u64>) -> (b: Bounded)
        ensures
            b.wf(),
            b.limit() == limit,
            b.remaining() == limit,
    {
        match limit {
            Some(n) => Bounded { limit, left: n },
            None => Bounded { limit, left: 0 },
        }
    }

    /// The most that the next read may ask for where the caller has room
    /// for `want` bytes. Of a bounded source that has yielded its limit this
    /// is nothing, whatever the input still holds; an unbounded source
    /// grants all that is wanted.
    pub fn allowance(&self, want: usize) -> (n: usize)
        ensures
            n == self.grant(want as nat),
    {
        match self.limit {
            Some(_) => if want as u64 <= self.left {
                want
            } else {
                self.left as usize
            },
            None => want,
        }
    }

    /// Takes note that the source has yielded `got` bytes more.
    pub fn consume(&mut self, got: usize)
        requires
            old(self).remaining() matches Some(left) ==> got <= left,
        ensures
            *final(self) == old(self).after(got),
            final(self).wf(),
            final(self).limit() == old(self).limit(),
            final(self).remaining() == match old(self).remaining() {
                Some(left) => Some((left - got) as u64),
                None => None,
            },
    {
        proof {
            use_type_invariant(&*self);
        }
        if self.limit.is_some() {
            self.left = self.left - got as u64;
        }
    }
}

/// A bounded source never yields more than its limit: what it has yielded
/// and what it may still yield make up the limit.
pub proof fn law_bounded_by_limit(b: Bounded)
    requires
        b.wf(),
        b.limit() is Some,
    ensures
        b.remaining() is Some,
        b.yielded() + b.remaining()->0 == b.limit()->0,
        b.yielded() <= b.limit()->0,
        forall|want: nat| b.yielded() + #[trigger] b.grant(want) <= b.limit()->0,
{
}

/// The count of bytes that reads brought in all.
pub open spec fn total_got(gots: Seq<usize>) -> nat
    decreases gots.len(),
{
    if gots.len() == 0 {
        0
    } else {
        total_got(gots.drop_last()) + gots.last() as nat
    }
}

/// However many reads are made of a source bounded by `limit`, and
/// whatever the input holds, all that they bring together is counted and
/// is no more than the limit.
pub proof fn law_bounded_total(b: Bounded, gots: Seq<usize>)
    requires
        b.wf(),
        b.limit() is Some,
        b.within_grants(gots),
    ensures
        b.after_all(gots).wf(),
        b.after_all(gots).limit() == b.limit(),
        b.after_all(gots).yielded() == b.yielded() + total_got(gots),
        b.after_all(gots).yielded() <= b.limit()->0,
    decreases gots.len(),
{
    if gots.len() > 0 {
        law_bounded_total(b, gots.drop_last());
    }
}

/// An unbounded source grants every read all that it wants, so that it
/// yields until the input ends.
pub proof fn law_unbounded_grants_all(b: Bounded, want: nat)
    requires
        b.wf(),
        b.limit() is None,
    ensures
        b.remaining() is None,
        b.grant(want) == want,
{
}

/// What to do after a read during a copy.
#[derive(Debug, Clone, Copy, PartialEq, Eq)]
pub enum CopyStep {
    /// Write the first `len` bytes of the buffer, then read again.
    Write { len: usize },
    /// Read again: nothing came.
    Retry,
    /// The input has ended: the copy is complete.
    Finish,
    /// The read failed: give up.
    Fail,
}

/// The count of bytes copied so far.
#[derive(Debug, Clone, Copy)]
pub struct Copied {
    total: u64,
}

impl Copied {
    /// The count of bytes copied; it stops at `u64::MAX`.
    pub closed spec fn spec_total(&self) -> u64 {
        self.total
    }

    /// What a read that ended with `outcome` asks of the copy.
    pub open spec fn step_for(outcome: ReadOutcome) -> CopyStep {
        match outcome {
            ReadOutcome::Got(len) => if len == 0 {
                CopyStep::Finish
            } else {
                CopyStep::Write { len }
            },
            ReadOutcome::Interrupted => CopyStep::Retry,
            ReadOutcome::Failed => CopyStep::Fail,
        }
    }

    /// The total once `len` bytes more are copied.
    pub open spec fn total_with(total: u64, len: usize) -> u64 {
        if total + len <= u64::MAX {
            (total + len) as u64
        } else {
            u64::MAX
        }
    }

    pub fn new() -> (c: Copied)
        ensures
            c.total() == 0,
    {
        Copied { total: 0 }
    }

    #[verifier::when_used_as_spec(spec_total)]
    pub fn total(&self) -> (t: u64)
        ensures
            t == self.total(),
    {
        self.total
    }

    /// Says what to do after a read, and counts the bytes that are to be
    /// written. An interrupted read is tried again; any other failure ends
    /// the copy.
    pub fn after_read(&mut self, outcome: ReadOutcome) -> (step: CopyStep)
        ensures
            step == Copied::step_for(outcome),
            final(self).total() == match outcome {
                ReadOutcome::Got(len) => Copied::total_with(old(self).total(), len),
                _ => old(self).total(),
            },
    {
        match outcome {
            ReadOutcome::Got(len) => {
                if len == 0 {
                    CopyStep::Finish
                } else {
                    self.total = if len as u64 <= u64::MAX - self.total {
                        self.total + len as u64
                    } else {
                        u64::MAX
                    };
                    CopyStep::Write { len }
                }
            },
            ReadOutcome::Interrupted => CopyStep::Retry,
            ReadOutcome::Failed => CopyStep::Fail,
        }
    }
}

/// Where a machine stands.
#[derive(Debug, Clone, Copy, PartialEq, Eq, Structural)]
pub enum Phase {
    /// A seek is to be attempted.
    Seeking,
    /// The input cannot seek: bytes are read and dropped.
    Skipping,
    /// The input is in place.
    Ready,
    /// The input could not be put in place.
    Failed,
}

/// What a machine asks its caller to do.
#[derive(Debug, Clone, Copy, PartialEq, Eq)]
pub enum Step {
    /// Seek forward by so many bytes from where the input stands.
    Seek { by: i64 },
    /// Read up to so many bytes, at least one, and drop them.
    Discard { at_most: usize },
    /// The input is in place: read from it, up to `limit` bytes where there
    /// is a limit.
    Ready { limit: Option<u64> },
    /// Give up, with the failure that was reported.
    Fail,
}

/// The machine that puts an input at the start of a range.
#[derive(Debug, Clone, Copy)]
pub struct Positioner {
    range: Range,
    phase: Phase,
    skip: Bounded,
}

impl Positioner {
    /// The bytes to drop are counted against the start of the range; before
    /// a seek none has been dropped, and while bytes are dropped some are
    /// still to go.
    #[verifier::type_invariant]
    pub closed spec fn wf(self) -> bool {
        &&& self.range.wf()
        &&& self.skip.wf()
        &&& self.skip.limit() == Some(self.range.start)
        &&& self.phase == Phase::Seeking ==> self.range.start > 0 && self.skip.yielded() == 0
        &&& self.phase == Phase::Skipping ==> self.skip.yielded() < self.range.start
    }

    /// The range to position at.
    pub closed spec fn range(self) -> Range {
        self.range
    }

    pub closed spec fn spec_phase(&self) -> Phase {
        self.phase
    }

    /// The count of bytes read and dropped so far.
    pub closed spec fn skipped(self) -> nat {
        self.skip.yielded()
    }

    /// The step that a machine in this state asks for.
    pub open spec fn spec_step(&self) -> Step {
        match self.phase() {
            Phase::Seeking => Step::Seek { by: self.range().start as i64 },
            Phase::Skipping => Step::Discard {
                at_most: if self.range().start - self.skipped() <= TRANSFER_SIZE {
                    (self.range().start - self.skipped()) as usize
                } else {
                    TRANSFER_SIZE
                },
            },
            Phase::Ready => Step::Ready { limit: self.range().count },
            Phase::Failed => Step::Fail,
        }
    }

    /// The count of bytes still to drop.
    pub open spec fn to_skip(self) -> nat {
        (self.range().start - self.skipped()) as nat
    }

    /// Where the machine stands once `event` is reported to it. A seek that
    /// moved the input ends the work; one that the input cannot do is made
    /// up for by reading and dropping; any other failure is final. While
    /// bytes are dropped, an interrupted read changes nothing, the end of the
    /// input ends the work early, and the work is done when the last byte
    /// to drop has come. A machine that is ready or has failed stays so, and
    /// a report that does not answer the step asked for is a failure.
    pub open spec fn next_phase(self, event: Event) -> Phase {
        match (self.phase(), event) {
            (Phase::Ready, _) => Phase::Ready,
            (Phase::Failed, _) => Phase::Failed,
            (Phase::Seeking, Event::Seek(SeekOutcome::Moved)) => Phase::Ready,
            (Phase::Seeking, Event::Seek(SeekOutcome::Unseekable)) => Phase::Skipping,
            (Phase::Skipping, Event::Read(ReadOutcome::Interrupted)) => Phase::Skipping,
            (Phase::Skipping, Event::Read(ReadOutcome::Got(n))) => if n == 0 {
                Phase::Ready
            } else if n > self.to_skip() || n > TRANSFER_SIZE {
                Phase::Failed
            } else if n == self.to_skip() {
                Phase::Ready
            } else {
                Phase::Skipping
            },
            _ => Phase::Failed,
        }
    }

    /// The count of bytes dropped once `event` is reported: those that came
    /// for a step that asked for them are counted.
    pub open spec fn next_skipped(self, event: Event) -> nat {
        match (self.phase(), event) {
            (Phase::Skipping, Event::Read(ReadOutcome::Got(n))) => if n <= self.to_skip() && n
                <= TRANSFER_SIZE {
                self.skipped() + n as nat
            } else {
                self.skipped()
            },
            _ => self.skipped(),
        }
    }

    /// The machine once `event` is reported to it: the same range, with the
    /// phase and the count that `next_phase` and `next_skipped` give.
    pub closed spec fn after(self, event: Event) -> Positioner {
        Positioner {
            range: self.range,
            phase: self.next_phase(event),
            skip: Bounded {
                limit: Some(self.range.start),
                left: (self.range.start - self.next_skipped(event)) as u64,
            },
        }
    }

    /// The machine once each of `events` is reported to it in turn.
    pub open spec fn after_all(self, events: Seq<Event>) -> Positioner
        decreases events.len(),
    {
        if events.len() == 0 {
            self
        } else {
            self.after_all(events.drop_last()).after(events.last())
        }
    }

    /// A machine for `range`. With a start of zero the input is in place as
    /// it is; else a seek comes first.
    pub fn new(range: Range) -> (p: Positioner)
        requires
            range.wf(),
        ensures
            p.wf(),
            p.range() == range,
            p.skipped() == 0,
            p.phase() == if range.start == 0 {
                Phase::Ready
            } else {
                Phase::Seeking
            },
    {
        let phase = if range.start == 0 {
            Phase::Ready
        } else {
            Phase::Seeking
        };
        Positioner { range, phase, skip: Bounded::new(Some(range.start)) }
    }

    #[verifier::when_used_as_spec(spec_phase)]
    pub fn phase(&self) -> (phase: Phase)
        ensures
            phase == self.phase(),
    {
        self.phase
    }

    /// What to do next.
    #[verifier::when_used_as_spec(spec_step)]
    pub fn step(&self) -> (step: Step)
        ensures
            step == self.step(),
    {
        proof {
            use_type_invariant(self);
            use_type_invariant(&self.skip);
        }
        match self.phase {
            Phase::Seeking => Step::Seek { by: self.range.start as i64 },
            Phase::Skipping => Step::Discard { at_most: self.skip.allowance(TRANSFER_SIZE) },
            Phase::Ready => Step::Ready { limit: self.range.count },
            Phase::Failed => Step::Fail,
        }
    }

    /// Takes note of how the step that was asked for went.
    pub fn advance(&mut self, event: Event)
        ensures
            *final(self) == old(self).after(event),
            final(self).wf(),
            final(self).range() == old(self).range(),
            final(self).phase() == old(self).next_phase(event),
            final(self).skipped() == old(self).next_skipped(event),
    {
        proof {
            use_type_invariant(&*self);
            use_type_invariant(&self.skip);
        }
        match (self.phase, event) {
            (Phase::Ready, _) | (Phase::Failed, _) => {},
            (Phase::Seeking, Event::Seek(SeekOutcome::Moved)) => {
                self.phase = Phase::Ready;
            },
            (Phase::Seeking, Event::Seek(SeekOutcome::Unseekable)) => {
                self.phase = Phase::Skipping;
            },
            (Phase::Skipping, Event::Read(ReadOutcome::Interrupted)) => {},
            (Phase::Skipping, Event::Read(ReadOutcome::Got(n))) => {
                if n == 0 {
                    self.phase = Phase::Ready;
                } else if n > self.skip.allowance(TRANSFER_SIZE) {
                    self.phase = Phase::Failed;
                } else {
                    if n as u64 == self.skip.left {
                        self.phase = Phase::Ready;
                    }
                    let mut skip = self.skip;
                    skip.consume(n);
                    self.skip = skip;
                }
            },
            _ => {
                self.phase = Phase::Failed;
            },
        }
    }
}

/// One report: the range stays, and phase and count go on as `next_phase`
/// and `next_skipped` say. No more is ever dropped than the start asks for.
pub proof fn law_one_report(p: Positioner, event: Event)
    requires
        p.wf(),
    ensures
        p.after(event).wf(),
        p.after(event).range() == p.range(),
        p.after(event).phase() == p.next_phase(event),
        p.after(event).skipped() == p.next_skipped(event),
        p.skipped() <= p.range().start,
        p.range().wf(),
        p.phase() == Phase::Seeking ==> p.skipped() == 0 && p.range().start > 0,
        p.phase() == Phase::Skipping ==> p.skipped() < p.range().start,
{
}

/// A machine that is ready or has failed asks for nothing more, whatever is
/// reported to it. So with a start of zero, where a new machine is ready
/// at once, no seek and no read is ever asked for.
pub proof fn law_done_is_final(p: Positioner, events: Seq<Event>)
    requires
        p.wf(),
        p.phase() == Phase::Ready || p.phase() == Phase::Failed,
    ensures
        p.after_all(events) == p,
        p.after_all(events).step() == if p.phase() == Phase::Ready {
            Step::Ready { limit: p.range().count }
        } else {
            Step::Fail
        },
    decreases events.len(),
{
    if events.len() > 0 {
        law_done_is_final(p, events.drop_last());
    }
}

/// For a range that starts at zero no seek and no read is ever asked for,
/// whatever is reported.
pub proof fn law_start_of_zero(p: Positioner, events: Seq<Event>)
    requires
        p.wf(),
        p.range().start == 0,
    ensures
        p.phase() == Phase::Ready || p.phase() == Phase::Failed,
        !(p.after_all(events).step() is Seek),
        !(p.after_all(events).step() is Discard),
{
    law_one_report(p, Event::Seek(SeekOutcome::Moved));
    law_done_is_final(p, events);
}

/// The count of bytes that the reads reported in `events` brought.
pub open spec fn bytes_got(events: Seq<Event>) -> nat
    decreases events.len(),
{
    if events.len() == 0 {
        0
    } else {
        bytes_got(events.drop_last()) + match events.last() {
            Event::Read(ReadOutcome::Got(n)) => n as nat,
            _ => 0,
        }
    }
}

/// Each of `events` answers a step that asked to read and drop bytes: the
/// read was interrupted, or brought bytes, at least one and no more than
/// were asked for.
pub open spec fn answers_discards(p: Positioner, events: Seq<Event>) -> bool
    decreases events.len(),
{
    events.len() == 0 || {
        &&& answers_discards(p, events.drop_last())
        &&& p.after_all(events.drop_last()).step() matches Step::Discard { at_most }
        &&& match events.last() {
            Event::Read(ReadOutcome::Interrupted) => true,
            Event::Read(ReadOutcome::Got(n)) => 0 < n <= at_most,
            _ => false,
        }
    }
}

/// Where the input cannot seek, reading and dropping puts it in place: the
/// bytes that the reads bring are counted, interrupted reads are tried
/// again, no read asks for more than is still to drop, and the machine is
/// ready exactly when as many bytes are dropped as the start says.
pub proof fn law_skipping_reaches_start(p: Positioner, events: Seq<Event>)
    requires
        p.wf(),
        p.phase() == Phase::Skipping,
        answers_discards(p, events),
    ensures
        p.after_all(events).wf(),
        p.after_all(events).range() == p.range(),
        p.after_all(events).skipped() == p.skipped() + bytes_got(events),
        p.after_all(events).skipped() <= p.range().start,
        p.after_all(events).phase() == if p.after_all(events).skipped() == p.range().start {
            Phase::Ready
        } else {
            Phase::Skipping
        },
        p.after_all(events).step() matches Step::Discard { at_most } ==> 0 < at_most
            <= p.range().start - p.after_all(events).skipped(),
    decreases events.len(),
{
    if events.len() > 0 {
        let before = p.after_all(events.drop_last());
        law_skipping_reaches_start(p, events.drop_last());
        law_one_report(before, events.last());
    }
    law_one_report(p.after_all(events), Event::Read(ReadOutcome::Interrupted));
}

/// A new machine for a range that does not start at zero asks for a seek by
/// the start; where the input cannot seek it then asks to read and drop,
/// with nothing dropped yet.
pub proof fn law_seek_comes_first(p: Positioner)
    requires
        p.wf(),
        p.phase() == Phase::Seeking,
    ensures
        p.step() == (Step::Seek { by: p.range().start as i64 }),
        p.range().start as i64 == p.range().start,
        p.after(Event::Seek(SeekOutcome::Moved)).phase() == Phase::Ready,
        p.after(Event::Seek(SeekOutcome::Unseekable)).phase() == Phase::Skipping,
        p.after(Event::Seek(SeekOutcome::Unseekable)).skipped() == 0,
        p.after(Event::Seek(SeekOutcome::Failed)).phase() == Phase::Failed,
{
    law_one_report(p, Event::Seek(SeekOutcome::Moved));
    law_one_report(p, Event::Seek(SeekOutcome::Unseekable));
    law_one_report(p, Event::Seek(SeekOutcome::Failed));
}

} // verus!
